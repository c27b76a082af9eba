//! The tree renderer: a walk over the nodes in document order that appends
//! the text of each to a buffer, by the rule of its kind.

use crate::entities::{decode_chars, decoded, lemma_decoded_empty, replace_nbsp, without_nbsp};
use crate::lines::{
    all_clean, kept_lines, lemma_kept_lines_clean, lemma_normalized_idempotent, normalize_chars,
    normalized,
};
use crate::markup::{lemma_element_view, opt_view, views, Markup, Node};
use crate::text::{append_range, from_chars, to_chars, trim, trim_chars};
use vstd::prelude::*;

verus! {

/// What an anchor contributes: `inner` is its trimmed inner text, `href` the
/// untrimmed value of its `href` attribute where it has one. A link whose
/// target differs from its text is shown as the text with the target in round
/// brackets behind it; otherwise whichever of the two is there stands alone.
pub open spec fn anchor_text(inner: Seq<char>, href: Option<Seq<char>>) -> Seq<char> {
    match href {
        Some(raw) => {
            let target = trim(raw);
            if inner.len() == 0 {
                target
            } else if target.len() == 0 || target == inner {
                inner
            } else {
                inner + seq![' ', '('] + target + seq![')']
            }
        },
        None => inner,
    }
}

/// A buffer after a paragraph has ended in it: a line feed is added unless the
/// buffer is empty or ends with one already.
pub open spec fn closed_paragraph(buf: Seq<char>) -> Seq<char> {
    if buf.len() > 0 && buf.last() != '\n' {
        buf.push('\n')
    } else {
        buf
    }
}

/// The buffer `buf` after `node` has been rendered into it.
pub open spec fn render_into(buf: Seq<char>, node: Markup) -> Seq<char>
    decreases node, 0nat,
{
    match node {
        Markup::Text(text) => buf + without_nbsp(text),
        Markup::Element { name, href, children } => {
            if name == "a"@ {
                buf + anchor_text(trim(render_all_into(Seq::empty(), children)), href)
            } else if name == "p"@ {
                closed_paragraph(render_all_into(buf, children))
            } else if name == "br"@ {
                buf.push('\n')
            } else {
                render_all_into(buf, children)
            }
        },
        Markup::Other => buf,
    }
}

/// The buffer `buf` after the nodes have been rendered into it one after the
/// other, from the first to the last.
pub open spec fn render_all_into(buf: Seq<char>, nodes: Seq<Markup>) -> Seq<char>
    decreases nodes, nodes.len(),
{
    if nodes.len() == 0 {
        buf
    } else {
        render_into(render_all_into(buf, nodes.drop_last()), nodes.last())
    }
}

/// The intermediate text of a fragment: its nodes rendered into an empty
/// buffer.
pub open spec fn rendered(nodes: Seq<Markup>) -> Seq<char> {
    render_all_into(Seq::empty(), nodes)
}

/// The final text of a fragment: its intermediate text, decoded and then
/// normalized.
pub open spec fn plain_text(nodes: Seq<Markup>) -> Seq<char> {
    normalized(decoded(rendered(nodes)))
}

/// Whether every node is a text node.
pub open spec fn all_text(nodes: Seq<Markup>) -> bool {
    forall|i: int| 0 <= i < nodes.len() ==> #[trigger] nodes[i] is Text
}

/// Whether every node is one that the renderer passes over: a comment, a
/// doctype, a processing instruction.
pub open spec fn all_ignored(nodes: Seq<Markup>) -> bool {
    forall|i: int| 0 <= i < nodes.len() ==> #[trigger] nodes[i] is Other
}

/// The texts of the text nodes among `nodes`, one after the other.
pub open spec fn joined_text(nodes: Seq<Markup>) -> Seq<char>
    decreases nodes.len(),
{
    if nodes.len() == 0 {
        Seq::empty()
    } else {
        joined_text(nodes.drop_last()) + match nodes.last() {
            Markup::Text(text) => text,
            _ => Seq::empty(),
        }
    }
}

/// A fragment of text nodes only is rendered to its text with every no-break
/// space made an ordinary space; its final text is that, decoded and
/// normalized.
pub proof fn lemma_text_only(nodes: Seq<Markup>)
    requires
        all_text(nodes),
    ensures
        rendered(nodes) == without_nbsp(joined_text(nodes)),
        plain_text(nodes) == normalized(decoded(without_nbsp(joined_text(nodes)))),
    decreases nodes.len(),
{
    if nodes.len() > 0 {
        let front = nodes.drop_last();
        assert forall|i: int| 0 <= i < front.len() implies #[trigger] front[i] is Text by {
            assert(front[i] == nodes[i]);
        }
        lemma_text_only(front);
        assert(nodes[nodes.len() - 1] is Text);
        let text = nodes.last()->Text_0;
        assert(rendered(nodes) == render_into(rendered(front), nodes.last()));
        assert(render_into(rendered(front), nodes.last()) == rendered(front) + without_nbsp(text));
        assert(without_nbsp(joined_text(front) + text) =~= without_nbsp(joined_text(front))
            + without_nbsp(text));
    } else {
        assert(without_nbsp(Seq::<char>::empty()) =~= Seq::<char>::empty());
    }
}

/// A fragment of text nodes only, in whose text the decoder finds nothing to
/// decode, comes out as its text with every no-break space made an ordinary
/// space, normalized.
pub proof fn lemma_text_only_plain(nodes: Seq<Markup>)
    requires
        all_text(nodes),
        decoded(without_nbsp(joined_text(nodes))) == without_nbsp(joined_text(nodes)),
    ensures
        plain_text(nodes) == normalized(without_nbsp(joined_text(nodes))),
{
    lemma_text_only(nodes);
}

/// A fragment of which nothing is rendered has the empty text as its final
/// text.
pub proof fn lemma_nothing_rendered(nodes: Seq<Markup>)
    requires
        rendered(nodes).len() == 0,
    ensures
        plain_text(nodes) == Seq::<char>::empty(),
{
    assert(rendered(nodes) =~= Seq::<char>::empty());
    lemma_decoded_empty();
}

/// Whether each of the nodes, rendered by itself, gives nothing.
pub open spec fn all_silent(nodes: Seq<Markup>) -> bool {
    forall|i: int|
        0 <= i < nodes.len() ==> render_into(Seq::empty(), #[trigger] nodes[i]).len() == 0
}

/// Of a fragment without nodes, and of one whose every node renders to
/// nothing, nothing is rendered, and the final text is empty.
pub proof fn lemma_silent_only(nodes: Seq<Markup>)
    requires
        all_silent(nodes),
    ensures
        rendered(nodes) == Seq::<char>::empty(),
        plain_text(nodes) == Seq::<char>::empty(),
    decreases nodes.len(),
{
    if nodes.len() > 0 {
        let front = nodes.drop_last();
        assert forall|i: int| 0 <= i < front.len() implies render_into(
            Seq::empty(),
            #[trigger] front[i],
        ).len() == 0 by {
            assert(front[i] == nodes[i]);
        }
        lemma_silent_only(front);
        assert(render_into(Seq::empty(), nodes[nodes.len() - 1]).len() == 0);
        assert(rendered(nodes) == render_into(rendered(front), nodes.last()));
        assert(rendered(nodes) =~= Seq::<char>::empty());
    }
    lemma_nothing_rendered(nodes);
}

/// A fragment that holds only nodes that the renderer passes over, such as
/// comments, has the empty text as its final text.
pub proof fn lemma_ignored_only(nodes: Seq<Markup>)
    requires
        all_ignored(nodes),
    ensures
        rendered(nodes) == Seq::<char>::empty(),
        plain_text(nodes) == Seq::<char>::empty(),
{
    assert forall|i: int| 0 <= i < nodes.len() implies render_into(
        Seq::empty(),
        #[trigger] nodes[i],
    ).len() == 0 by {
        assert(nodes[i] is Other);
    }
    lemma_silent_only(nodes);
}

/// Whether `a` and `b` hold the same characters.
pub fn same_chars(a: &Vec<char>, b: &Vec<char>) -> (same: bool)
    ensures
        same == (a@ == b@),
{
    if a.len() != b.len() {
        return false;
    }
    let mut i: usize = 0;
    while i < a.len()
        invariant
            a.len() == b.len(),
            i <= a.len(),
            forall|k: int| 0 <= k < i ==> a@[k] == b@[k],
        decreases a.len() - i,
    {
        if a[i] != b[i] {
            return false;
        }
        i += 1;
    }
    assert(a@ =~= b@);
    true
}

/// Whether the characters of `v` are those of `name`.
fn is_named(v: &Vec<char>, name: &str) -> (same: bool)
    ensures
        same == (v@ == name@),
{
    let n = to_chars(name);
    same_chars(v, &n)
}

/// What an anchor with the trimmed inner text `inner` and the attribute value
/// `href` contributes.
fn anchor_chars(inner: &Vec<char>, href: &Option<String>) -> (r: Vec<char>)
    ensures
        r@ == anchor_text(inner@, opt_view(*href)),
{
    let mut r: Vec<char> = Vec::new();
    match href {
        Some(raw) => {
            let raw_chars = to_chars(raw.as_str());
            let target = trim_chars(&raw_chars);
            if inner.len() == 0 {
                append_range(&mut r, &target, 0, target.len());
                assert(r@ =~= target@);
            } else if target.len() == 0 || same_chars(&target, inner) {
                append_range(&mut r, inner, 0, inner.len());
                assert(r@ =~= inner@);
            } else {
                append_range(&mut r, inner, 0, inner.len());
                r.push(' ');
                r.push('(');
                append_range(&mut r, &target, 0, target.len());
                r.push(')');
                assert(r@ =~= inner@ + seq![' ', '('] + target@ + seq![')']);
            }
        },
        None => {
            append_range(&mut r, inner, 0, inner.len());
            assert(r@ =~= inner@);
        },
    }
    r
}

/// Renders `node` into `buf`.
fn render_chars(node: &Node, buf: &mut Vec<char>)
    ensures
        final(buf)@ == render_into(old(buf)@, node@),
    decreases node, 0nat,
{
    match node {
        Node::Text(text) => {
            let chars = to_chars(text.as_str());
            let clean = replace_nbsp(&chars);
            append_range(buf, &clean, 0, clean.len());
            assert(clean@.subrange(0, clean.len() as int) =~= clean@);
        },
        Node::Element { name, href, children } => {
            proof {
                lemma_element_view(*node);
            }
            let tag = to_chars(name.as_str());
            if is_named(&tag, "a") {
                let mut inner: Vec<char> = Vec::new();
                render_all_chars(children, &mut inner);
                let label = trim_chars(&inner);
                let shown = anchor_chars(&label, href);
                append_range(buf, &shown, 0, shown.len());
                assert(shown@.subrange(0, shown.len() as int) =~= shown@);
            } else if is_named(&tag, "p") {
                render_all_chars(children, buf);
                if buf.len() > 0 && buf[buf.len() - 1] != '\n' {
                    buf.push('\n');
                }
            } else if is_named(&tag, "br") {
                buf.push('\n');
            } else {
                render_all_chars(children, buf);
            }
        },
        Node::Other => {},
    }
}

/// Renders the nodes into `buf`, from the first to the last.
fn render_all_chars(nodes: &Vec<Node>, buf: &mut Vec<char>)
    ensures
        final(buf)@ == render_all_into(old(buf)@, views(nodes@)),
    decreases nodes, 1nat,
{
    let ghost all = views(nodes@);
    let mut i: usize = 0;
    while i < nodes.len()
        invariant
            i <= nodes.len(),
            all == views(nodes@),
            buf@ == render_all_into(old(buf)@, all.take(i as int)),
        decreases nodes.len() - i,
    {
        render_chars(&nodes[i], buf);
        i += 1;
        assert(all.take(i as int).drop_last() =~= all.take(i - 1));
        assert(all.take(i as int).last() == nodes@[i - 1]@);
    }
    assert(all.take(nodes.len() as int) =~= all);
}

/// Appends the text of `node` to `out`: a text node gives its text with every
/// no-break space made an ordinary space; an `a` element gives its link token;
/// a `p` element gives its children and ends the line; a `br` element gives a
/// line feed; any other element gives its children; anything else gives
/// nothing.
pub fn render_node(node: &Node, out: &mut String)
    ensures
        final(out)@ == render_into(old(out)@, node@),
{
    let mut buf = to_chars(out.as_str());
    render_chars(node, &mut buf);
    *out = from_chars(&buf);
}

/// The intermediate text of the nodes of a fragment.
pub fn render_nodes(nodes: &Vec<Node>) -> (out: String)
    ensures
        out@ == rendered(views(nodes@)),
{
    let mut buf: Vec<char> = Vec::new();
    render_all_chars(nodes, &mut buf);
    from_chars(&buf)
}

/// The final text of the nodes of a fragment: rendered, decoded and
/// normalized. It is made of clean lines, and normalizing it again changes
/// nothing; it is empty where nothing was rendered.
pub fn render_text(nodes: &Vec<Node>) -> (out: String)
    ensures
        out@ == plain_text(views(nodes@)),
        all_clean(kept_lines(decoded(rendered(views(nodes@))))),
        normalized(out@) == out@,
        rendered(views(nodes@)).len() == 0 ==> out@.len() == 0,
{
    let mut buf: Vec<char> = Vec::new();
    render_all_chars(nodes, &mut buf);
    let text = decode_chars(&buf);
    let lines = normalize_chars(&text);
    proof {
        lemma_kept_lines_clean(text@);
        lemma_normalized_idempotent(text@);
        if buf@.len() == 0 {
            assert(buf@ =~= Seq::<char>::empty());
            lemma_decoded_empty();
        }
    }
    from_chars(&lines)
}

} // verus!
