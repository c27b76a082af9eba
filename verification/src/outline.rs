//! A tree written down flat: the walk over a tree in document order, as a
//! sequence of events that open and close its nodes, and the way back from
//! such a sequence to the tree.

use crate::markup::{lemma_element_view, opt_view, views, Markup, Node};
use vstd::prelude::*;

verus! {

/// The greatest depth at which a node is kept: the top-level nodes of a
/// fragment have depth 1, their children depth 2, and so on. What lies deeper
/// is cut off, so that no tree built here is deeper than this and a walk down
/// a tree stays within the call stack, whatever the markup.
pub const MAX_DEPTH: usize = 512;

/// The model of an event.
pub ghost enum Token {
    /// A text node opens.
    Text(Seq<char>),
    /// An element opens.
    Open { name: Seq<char>, href: Option<Seq<char>> },
    /// A node of another kind opens.
    Other,
    /// The node that was opened last and is not closed yet closes.
    Close,
}

/// One step of the walk over a tree: a node is entered, with what the
/// renderer reads of it, or the node entered last is left.
#[derive(Debug)]
pub enum Event {
    /// A text node opens.
    Text(String),
    /// An element opens.
    Open { name: String, href: Option<String> },
    /// A node of another kind opens.
    Other,
    /// The node that was opened last and is not closed yet closes.
    Close,
}

impl View for Event {
    type V = Token;

    open spec fn view(&self) -> Token {
        match self {
            Event::Text(text) => Token::Text(text@),
            Event::Open { name, href } => Token::Open { name: name@, href: opt_view(*href) },
            Event::Other => Token::Other,
            Event::Close => Token::Close,
        }
    }
}

/// The models of the events, in order.
pub open spec fn tokens(events: Seq<Event>) -> Seq<Token> {
    Seq::new(events.len(), |i: int| events[i]@)
}

/// A node that is open, with the children it has got so far.
pub ghost struct Frame {
    pub start: Token,
    pub children: Seq<Markup>,
}

/// The node that was opened by `start` and has got the children `children`.
pub open spec fn node_of(start: Token, children: Seq<Markup>) -> Markup {
    match start {
        Token::Text(text) => Markup::Text(text),
        Token::Open { name, href } => Markup::Element { name, href, children },
        _ => Markup::Other,
    }
}

/// The open nodes after one more token, the innermost last. A token that
/// opens a node adds it, without children; a closing token makes a node of
/// the innermost one and gives it as the next child to the one around it,
/// unless it lies deeper than `MAX_DEPTH`: then it is dropped. The first of
/// the open nodes stands for the fragment itself and is never closed.
pub open spec fn step(stack: Seq<Frame>, token: Token) -> Seq<Frame> {
    if token is Close {
        if stack.len() <= 1 {
            stack
        } else if stack.len() - 1 > MAX_DEPTH {
            stack.drop_last()
        } else {
            let top = stack[stack.len() - 1];
            let below = stack[stack.len() - 2];
            stack.take(stack.len() - 2).push(
                Frame {
                    start: below.start,
                    children: below.children.push(node_of(top.start, top.children)),
                },
            )
        }
    } else {
        stack.push(Frame { start: token, children: Seq::empty() })
    }
}

/// The open nodes after the tokens, one after the other, starting from
/// `stack`.
pub open spec fn run(stack: Seq<Frame>, tokens: Seq<Token>) -> Seq<Frame>
    decreases tokens.len(),
{
    if tokens.len() == 0 {
        stack
    } else {
        step(run(stack, tokens.drop_last()), tokens.last())
    }
}

/// The open nodes at the start: the fragment alone, without children.
pub open spec fn start_stack() -> Seq<Frame> {
    seq![Frame { start: Token::Other, children: Seq::empty() }]
}

/// The top-level nodes that the tokens describe: the children that the
/// fragment has got when all tokens are read. A node that is never closed is
/// left out, and so is one that lies deeper than `MAX_DEPTH`; a closing token
/// without an open node is passed over.
pub open spec fn forest_of(tokens: Seq<Token>) -> Seq<Markup> {
    run(start_stack(), tokens)[0].children
}

/// Whether a node lies deeper than `MAX_DEPTH` after the first `upto` tokens:
/// more nodes than that are open at once.
pub open spec fn deep_at(tokens: Seq<Token>, upto: int) -> bool {
    run(start_stack(), tokens.take(upto)).len() - 1 > MAX_DEPTH
}

/// Whether the tokens describe a node that lies deeper than `MAX_DEPTH`, so
/// that something of them is cut off.
pub open spec fn too_deep(tokens: Seq<Token>) -> bool {
    exists|upto: int| 0 <= upto <= tokens.len() && deep_at(tokens, upto)
}

/// The walk over `node`: it opens, its children are walked, it closes.
pub open spec fn walk(node: Markup) -> Seq<Token>
    decreases node, 0nat,
{
    match node {
        Markup::Text(text) => seq![Token::Text(text), Token::Close],
        Markup::Element { name, href, children } => seq![Token::Open { name, href }] + walk_all(
            children,
        ) + seq![Token::Close],
        Markup::Other => seq![Token::Other, Token::Close],
    }
}

/// The walk over the nodes, one after the other.
pub open spec fn walk_all(nodes: Seq<Markup>) -> Seq<Token>
    decreases nodes, nodes.len(),
{
    if nodes.len() == 0 {
        Seq::empty()
    } else {
        walk_all(nodes.drop_last()) + walk(nodes.last())
    }
}

/// The height of `node`: 1 for a node without children, else one more than
/// the height of its highest child.
pub open spec fn height(node: Markup) -> nat
    decreases node, 0nat,
{
    match node {
        Markup::Element { name, href, children } => 1 + height_all(children),
        _ => 1,
    }
}

/// The height of the highest of `nodes`, 0 where there is none.
pub open spec fn height_all(nodes: Seq<Markup>) -> nat
    decreases nodes, nodes.len(),
{
    if nodes.len() == 0 {
        0
    } else if height_all(nodes.drop_last()) >= height(nodes.last()) {
        height_all(nodes.drop_last())
    } else {
        height(nodes.last())
    }
}

/// `stack` with `nodes` given to its innermost open node as further children.
pub open spec fn with_children(stack: Seq<Frame>, nodes: Seq<Markup>) -> Seq<Frame> {
    stack.drop_last().push(
        Frame { start: stack.last().start, children: stack.last().children + nodes },
    )
}

/// Reading two runs of tokens one after the other is reading them as one.
pub proof fn lemma_run_concat(stack: Seq<Frame>, first: Seq<Token>, second: Seq<Token>)
    ensures
        run(stack, first + second) == run(run(stack, first), second),
    decreases second.len(),
{
    if second.len() == 0 {
        assert(first + second =~= first);
    } else {
        assert((first + second).drop_last() =~= first + second.drop_last());
        assert((first + second).last() == second.last());
        lemma_run_concat(stack, first, second.drop_last());
    }
}

/// Reading one token.
pub proof fn lemma_run_one(stack: Seq<Frame>, token: Token)
    ensures
        run(stack, seq![token]) == step(stack, token),
{
    assert(seq![token].drop_last() =~= Seq::<Token>::empty());
    assert(run(stack, seq![token].drop_last()) == stack);
}

/// Reading the walk over a node gives that node, as the next child, to the
/// innermost open node, where the node does not reach deeper than `MAX_DEPTH`.
pub proof fn lemma_run_walk(stack: Seq<Frame>, node: Markup)
    requires
        stack.len() >= 1,
        stack.len() - 1 + height(node) <= MAX_DEPTH,
    ensures
        run(stack, walk(node)) == with_children(stack, seq![node]),
    decreases node, 0nat,
{
    let opened = match node {
        Markup::Text(text) => Token::Text(text),
        Markup::Element { name, href, children } => Token::Open { name, href },
        Markup::Other => Token::Other,
    };
    let kids = match node {
        Markup::Element { name, href, children } => children,
        _ => Seq::empty(),
    };
    let entered = stack.push(Frame { start: opened, children: Seq::empty() });
    let filled = with_children(entered, kids);
    assert(walk(node) =~= seq![opened] + walk_all(kids) + seq![Token::Close]) by {
        assert(walk_all(Seq::<Markup>::empty()) =~= Seq::<Token>::empty());
    }
    lemma_run_concat(stack, seq![opened] + walk_all(kids), seq![Token::Close]);
    lemma_run_concat(stack, seq![opened], walk_all(kids));
    lemma_run_one(stack, opened);
    assert(step(stack, opened) == entered);
    if node is Element {
        lemma_run_walk_all(entered, kids);
    } else {
        assert(run(entered, walk_all(kids)) == entered);
        assert(filled =~= entered);
    }
    assert(run(stack, seq![opened] + walk_all(kids)) == filled);
    lemma_run_one(filled, Token::Close);
    assert(filled.last().children =~= kids);
    assert(node_of(opened, kids) == node);
    assert(filled.take(filled.len() - 2) =~= stack.drop_last());
    assert(filled[filled.len() - 2] == stack.last());
    assert(stack.last().children.push(node) =~= stack.last().children + seq![node]);
    assert(step(filled, Token::Close) =~= with_children(stack, seq![node]));
}

/// Reading the walk over some nodes gives those nodes, as the next children,
/// to the innermost open node, where none of them reaches deeper than
/// `MAX_DEPTH`.
pub proof fn lemma_run_walk_all(stack: Seq<Frame>, nodes: Seq<Markup>)
    requires
        stack.len() >= 1,
        stack.len() - 1 + height_all(nodes) <= MAX_DEPTH,
    ensures
        run(stack, walk_all(nodes)) == with_children(stack, nodes),
    decreases nodes, nodes.len(),
{
    if nodes.len() == 0 {
        assert(stack.last().children + nodes =~= stack.last().children);
        assert(with_children(stack, nodes) =~= stack);
    } else {
        let front = nodes.drop_last();
        let last = nodes.last();
        lemma_run_concat(stack, walk_all(front), walk(last));
        lemma_run_walk_all(stack, front);
        let mid = with_children(stack, front);
        lemma_run_walk(mid, last);
        assert(stack.last().children + front + seq![last] =~= stack.last().children + nodes);
        assert(with_children(mid, seq![last]) =~= with_children(stack, nodes));
    }
}

/// The way back: from the walk over the nodes of a fragment that is not
/// higher than `MAX_DEPTH`, the nodes themselves are got again.
pub proof fn lemma_forest_of_walk(nodes: Seq<Markup>)
    requires
        height_all(nodes) <= MAX_DEPTH,
    ensures
        forest_of(walk_all(nodes)) == nodes,
{
    lemma_run_walk_all(start_stack(), nodes);
    assert(Seq::<Markup>::empty() + nodes =~= nodes);
}

/// A node that is open while the events are read, with the children it has
/// got so far.
pub struct OpenNode {
    pub start: Event,
    pub children: Vec<Node>,
}

impl View for OpenNode {
    type V = Frame;

    open spec fn view(&self) -> Frame {
        Frame { start: self.start@, children: views(self.children@) }
    }
}

/// The models of the open nodes, the innermost last.
pub open spec fn frames(stack: Seq<OpenNode>) -> Seq<Frame> {
    Seq::new(stack.len(), |i: int| stack[i]@)
}

/// A copy of `event`.
fn copy_of(event: &Event) -> (copy: Event)
    ensures
        copy@ == event@,
{
    match event {
        Event::Text(text) => Event::Text(text.clone()),
        Event::Open { name, href } => {
            let link = match href {
                Some(h) => Some(h.clone()),
                None => None,
            };
            Event::Open { name: name.clone(), href: link }
        },
        Event::Other => Event::Other,
        Event::Close => Event::Close,
    }
}

/// The node that was opened by `start` and has got the children `children`.
fn close_node(start: Event, children: Vec<Node>) -> (node: Node)
    ensures
        node@ == node_of(start@, views(children@)),
{
    match start {
        Event::Text(text) => Node::Text(text),
        Event::Open { name, href } => {
            let node = Node::Element { name, href, children };
            proof {
                lemma_element_view(node);
            }
            node
        },
        _ => Node::Other,
    }
}

/// The top-level nodes that the events describe, each with its subtree down
/// to the depth `MAX_DEPTH`. Of the walk over a fragment that is not higher
/// than that, this gives the fragment's nodes back.
pub fn build_forest(events: &Vec<Event>) -> (nodes: Vec<Node>)
    ensures
        views(nodes@) == forest_of(tokens(events@)),
{
    let ghost all = tokens(events@);
    let mut stack: Vec<OpenNode> = Vec::new();
    stack.push(OpenNode { start: Event::Other, children: Vec::new() });
    assert(views(stack@[0].children@) =~= Seq::<Markup>::empty());
    assert(stack@[0]@ == start_stack()[0]);
    assert(frames(stack@) =~= start_stack());
    let mut i: usize = 0;
    assert(all.take(0) =~= Seq::<Token>::empty());
    while i < events.len()
        invariant
            i <= events.len(),
            all == tokens(events@),
            stack.len() >= 1,
            frames(stack@) == run(start_stack(), all.take(i as int)),
        decreases events.len() - i,
    {
        let ghost before = frames(stack@);
        let ghost token = events@[i as int]@;
        assert(all.take(i + 1).drop_last() =~= all.take(i as int));
        assert(all.take(i + 1).last() == token);
        match &events[i] {
            Event::Close => {
                if stack.len() - 1 > MAX_DEPTH {
                    stack.pop();
                    assert(frames(stack@) =~= step(before, token));
                } else if stack.len() > 1 {
                    let top = stack.pop().unwrap();
                    let mut below = stack.pop().unwrap();
                    let ghost rest = frames(stack@);
                    let ghost kids = views(below.children@);
                    let node = close_node(top.start, top.children);
                    below.children.push(node);
                    assert(views(below.children@) =~= kids.push(node@));
                    stack.push(below);
                    assert(rest =~= before.take(before.len() - 2));
                    assert(frames(stack@) =~= step(before, token));
                } else {
                    assert(frames(stack@) =~= step(before, token));
                }
            },
            other => {
                let start = copy_of(other);
                stack.push(OpenNode { start, children: Vec::new() });
                assert(views(Seq::<Node>::empty()) =~= Seq::<Markup>::empty());
                assert(frames(stack@) =~= step(before, token));
            },
        }
        i += 1;
    }
    assert(all.take(events.len() as int) =~= all);
    let base = stack.remove(0);
    base.children
}

/// Whether the events describe a node that lies deeper than `MAX_DEPTH`: of
/// such events `build_forest` cuts something off.
pub fn is_too_deep(events: &Vec<Event>) -> (deep: bool)
    ensures
        deep == too_deep(tokens(events@)),
{
    let ghost all = tokens(events@);
    let mut depth: usize = 0;
    let mut deep = false;
    let mut i: usize = 0;
    assert(all.take(0) =~= Seq::<Token>::empty());
    while i < events.len()
        invariant
            i <= events.len(),
            all == tokens(events@),
            depth <= i,
            depth + 1 == run(start_stack(), all.take(i as int)).len(),
            deep <==> exists|upto: int| 0 <= upto <= i && deep_at(all, upto),
        decreases events.len() - i,
    {
        assert(all.take(i + 1).drop_last() =~= all.take(i as int));
        assert(all.take(i + 1).last() == events@[i as int]@);
        match &events[i] {
            Event::Close => {
                if depth > 0 {
                    depth -= 1;
                }
            },
            _ => {
                depth += 1;
            },
        }
        i += 1;
        if depth > MAX_DEPTH {
            assert(deep_at(all, i as int));
            deep = true;
        }
    }
    deep
}

} // verus!
