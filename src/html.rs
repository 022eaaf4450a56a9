//! Tree-construction helpers.
use crate::node::{is_text_spec, Attribute, Element, Leaf, Node};
use vstd::prelude::*;

verus! {

/// Whether `n` is a comment leaf holding `s`.
pub open spec fn is_comment_of(n: Node, s: Seq<char>) -> bool {
    n is Leaf && n->Leaf_0 is Comment && n->Leaf_0->Comment_0@ == s
}

/// Whether `n` is the separator comment placed between two text siblings.
pub open spec fn is_separator(n: Node) -> bool {
    is_comment_of(n, "separator"@)
}

/// Whether `out` is `cs` with a separator inserted after every text node
/// that has a next sibling in `cs`, and no other change.
pub open spec fn separated(out: Seq<Node>, cs: Seq<Node>) -> bool
    decreases cs.len(),
{
    if cs.len() == 0 {
        out.len() == 0
    } else if out.len() == 0 {
        false
    } else if out.last() != cs.last() {
        false
    } else if cs.len() >= 2 && is_text_spec(cs[cs.len() - 2]) {
        out.len() >= 2 && is_separator(out[out.len() - 2]) && separated(
            out.take(out.len() - 2),
            cs.drop_last(),
        )
    } else {
        separated(out.drop_last(), cs.drop_last())
    }
}

/// Whether no two text nodes stand next to each other in `s`.
pub open spec fn no_adjacent_text(s: Seq<Node>) -> bool {
    forall|i: int| 0 <= i < s.len() - 1 ==> !(#[trigger] is_text_spec(s[i]) && is_text_spec(s[i + 1]))
}

/// Whether `n` is an element with the given parts.
pub open spec fn is_element_of(
    n: Node,
    namespace: Option<Seq<char>>,
    tag: Seq<char>,
    attrs: Seq<Attribute>,
    self_closing: bool,
) -> bool {
    &&& n is Element
    &&& match n->Element_0.namespace {
        Some(ns) => namespace == Some(ns@),
        None => namespace is None,
    }
    &&& n->Element_0.tag@ == tag
    &&& n->Element_0.attrs@ == attrs
    &&& n->Element_0.self_closing == self_closing
}

/// Every sequence of children, once separated, holds no two adjacent text nodes.
pub proof fn lemma_separated_no_adjacent_text(out: Seq<Node>, cs: Seq<Node>)
    requires
        separated(out, cs),
    ensures
        no_adjacent_text(out),
        out.len() >= cs.len(),
        cs.len() > 0 ==> out.last() == cs.last(),
    decreases cs.len(),
{
    reveal_strlit("separator");
    if cs.len() > 0 {
        if cs.len() >= 2 && is_text_spec(cs[cs.len() - 2]) {
            let rest = out.take(out.len() - 2);
            lemma_separated_no_adjacent_text(rest, cs.drop_last());
            assert forall|i: int| 0 <= i < out.len() - 1 implies !(#[trigger] is_text_spec(out[i])
                && is_text_spec(out[i + 1])) by {
                let sep = out[out.len() - 2];
                assert(!is_text_spec(sep));
                if i < out.len() - 3 {
                    assert(out[i] == rest[i] && out[i + 1] == rest[i + 1]);
                } else if i == out.len() - 3 {
                    assert(out[i + 1] == sep);
                } else {
                    assert(out[i] == sep);
                }
            }
        } else {
            let rest = out.drop_last();
            lemma_separated_no_adjacent_text(rest, cs.drop_last());
            assert forall|i: int| 0 <= i < out.len() - 1 implies !(#[trigger] is_text_spec(out[i])
                && is_text_spec(out[i + 1])) by {
                if i < out.len() - 2 {
                    assert(out[i] == rest[i] && out[i + 1] == rest[i + 1]);
                } else if cs.len() >= 2 {
                    assert(rest.last() == cs.drop_last().last());
                }
            }
        }
    }
}

/// Two text children that were neighbors stand in the separated sequence
/// with a separator between them and nothing else.
pub proof fn lemma_separator_between_texts(out: Seq<Node>, cs: Seq<Node>, i: int)
    requires
        separated(out, cs),
        0 <= i < cs.len() - 1,
        is_text_spec(cs[i]),
        is_text_spec(cs[i + 1]),
    ensures
        exists|j: int|
            0 <= j < out.len() - 2 && #[trigger] out[j] == cs[i] && is_separator(out[j + 1])
                && out[j + 2] == cs[i + 1],
    decreases cs.len(),
{
    let n = cs.len();
    let rest = if is_text_spec(cs[n - 2]) {
        out.take(out.len() - 2)
    } else {
        out.drop_last()
    };
    let pre = cs.drop_last();
    lemma_separated_no_adjacent_text(rest, pre);
    if i + 1 == n - 1 {
        let j = out.len() - 3;
        assert(rest.last() == pre.last());
        assert(out[j] == rest.last());
        assert(out[j] == cs[i] && is_separator(out[j + 1]) && out[j + 2] == cs[i + 1]);
    } else {
        lemma_separator_between_texts(rest, pre, i);
        let j = choose|j: int|
            0 <= j < rest.len() - 2 && #[trigger] rest[j] == pre[i] && is_separator(rest[j + 1])
                && rest[j + 2] == pre[i + 1];
        assert(out[j] == rest[j] && out[j + 1] == rest[j + 1] && out[j + 2] == rest[j + 2]);
        assert(out[j] == cs[i] && is_separator(out[j + 1]) && out[j + 2] == cs[i + 1]);
    }
}

/// Extends a separated sequence by one child.
proof fn lemma_separated_push(out: Seq<Node>, cs: Seq<Node>, sep: Node, c: Node)
    requires
        separated(out, cs),
        cs.len() > 0 && is_text_spec(cs.last()) ==> is_separator(sep),
    ensures
        cs.len() > 0 && is_text_spec(cs.last()) ==> separated(out.push(sep).push(c), cs.push(c)),
        !(cs.len() > 0 && is_text_spec(cs.last())) ==> separated(out.push(c), cs.push(c)),
{
    assert(cs.push(c).drop_last() =~= cs);
    assert(out.push(sep).push(c).take(out.len() as int) =~= out);
    assert(out.push(c).drop_last() =~= out);
}

/// Builds a text node.
pub fn text(s: &str) -> (r: Node)
    ensures
        r is Leaf && r->Leaf_0 is Text && r->Leaf_0->Text_0@ == s@,
{
    Node::Leaf(Leaf::Text(s.to_owned()))
}

/// Builds a node of markup that is inserted as it is, without escaping.
pub fn safe_html(s: &str) -> (r: Node)
    ensures
        r is Leaf && r->Leaf_0 is SafeHtml && r->Leaf_0->SafeHtml_0@ == s@,
{
    Node::Leaf(Leaf::SafeHtml(s.to_owned()))
}

/// Builds a comment node.
pub fn comment(s: &str) -> (r: Node)
    ensures
        is_comment_of(r, s@),
{
    Node::Leaf(Leaf::Comment(s.to_owned()))
}

/// Builds a document-type declaration.
pub fn doctype(s: &str) -> (r: Node)
    ensures
        r is Leaf && r->Leaf_0 is DocType && r->Leaf_0->DocType_0@ == s@,
{
    Node::Leaf(Leaf::DocType(s.to_owned()))
}

/// Builds a node that holds a list of nodes.
pub fn node_list(nodes: Vec<Node>) -> (r: Node)
    ensures
        r is NodeList && r->NodeList_0@ == nodes@,
{
    Node::NodeList(nodes)
}

/// Builds a fragment: a flat sequence of nodes with no wrapping element.
pub fn fragment(nodes: Vec<Node>) -> (r: Node)
    ensures
        r is Fragment && r->Fragment_0@ == nodes@,
{
    Node::Fragment(nodes)
}

/// The node itself when `flag` holds, a "hidden" comment otherwise.
pub fn view_if(flag: bool, node: Node) -> (r: Node)
    ensures
        flag ==> r == node,
        !flag ==> is_comment_of(r, "hidden"@),
{
    if flag {
        node
    } else {
        comment("hidden")
    }
}

/// Calls `fn_node` only when `flag` holds and returns what it built; a
/// "hidden" comment otherwise.
pub fn lazy_view_if<F: Fn() -> Node>(flag: bool, fn_node: F) -> (r: Node)
    requires
        flag ==> fn_node.requires(()),
    ensures
        flag ==> fn_node.ensures((), r),
        !flag ==> is_comment_of(r, "hidden"@),
{
    if flag {
        fn_node()
    } else {
        comment("hidden")
    }
}

/// Builds an element. A separator comment follows every text child that has
/// a next sibling, so that no two text children are neighbors and a live
/// backend cannot merge them.
pub fn html_element(
    namespace: Option<&str>,
    tag: &str,
    attrs: Vec<Attribute>,
    children: Vec<Node>,
    self_closing: bool,
) -> (r: Node)
    ensures
        is_element_of(
            r,
            match namespace {
                Some(ns) => Some(ns@),
                None => None,
            },
            tag@,
            attrs@,
            self_closing,
        ),
        separated(r->Element_0.children@, children@),
        no_adjacent_text(r->Element_0.children@),
{
    let mut rest = children;
    let mut corrected: Vec<Node> = Vec::new();
    let ghost cs = rest@;
    let n = rest.len();
    let mut k: usize = 0;
    while k < n
        invariant
            n == cs.len(),
            k <= n,
            rest@ == cs.skip(k as int),
            separated(corrected@, cs.take(k as int)),
        decreases n - k,
    {
        let child = rest.remove(0);
        proof {
            lemma_separated_no_adjacent_text(corrected@, cs.take(k as int));
            assert(cs.take(k as int).push(child) =~= cs.take(k + 1));
            assert(rest@ =~= cs.skip(k + 1));
        }
        let last_is_text = corrected.len() > 0 && corrected[corrected.len() - 1].is_text();
        let ghost before = corrected@;
        proof {
            if k > 0 {
                assert(cs.take(k as int).last() == before.last());
            }
        }
        if last_is_text {
            let sep = comment("separator");
            proof {
                reveal_strlit("separator");
                lemma_separated_push(before, cs.take(k as int), sep, child);
            }
            corrected.push(sep);
        } else {
            proof {
                lemma_separated_push(before, cs.take(k as int), child, child);
                if k > 0 {
                    assert(cs.take(k as int).last() == before.last());
                }
            }
        }
        corrected.push(child);
        k = k + 1;
    }
    assert(cs.take(n as int) =~= cs);
    proof {
        lemma_separated_no_adjacent_text(corrected@, cs);
    }
    let ns = match namespace {
        Some(s) => Some(s.to_owned()),
        None => None,
    };
    Node::Element(
        Element { namespace: ns, tag: tag.to_owned(), attrs, children: corrected, self_closing },
    )
}

} // verus!
