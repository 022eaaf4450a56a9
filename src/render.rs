//! Serialization of a tree to markup.
use crate::attributes::{
    is_blank, is_plain, merge_attributes_of_same_name, merge_plain_attributes_values, merge_spec,
    merged_text, partition_callbacks_from_plain_and_func_calls,
};
use crate::node::{
    attrs_view, is_text_spec, Attribute, AttributeValue, AttributeView, Element, Leaf, Node,
};
use vstd::prelude::*;
use vstd::string::*;

verus! {

/// `n` levels of indentation, four spaces each.
pub open spec fn indent_text(n: nat) -> Seq<char>
    decreases n,
{
    if n == 0 {
        Seq::empty()
    } else {
        indent_text((n - 1) as nat) + "    "@
    }
}

/// The plain text of an attribute: its plain values merged.
pub open spec fn attr_plain_text(a: AttributeView) -> Seq<char> {
    merged_text(a.value.filter(|v: AttributeValue| is_plain(v)))
}

/// Merged attributes as markup: ` name="value"` for each attribute whose
/// plain text is not blank; callbacks and function calls are not written.
pub open spec fn attrs_text(m: Seq<AttributeView>) -> Seq<char>
    decreases m.len(),
{
    if m.len() == 0 {
        Seq::empty()
    } else {
        let a = m.last();
        let t = attr_plain_text(a);
        attrs_text(m.drop_last()) + if is_blank(t) {
            Seq::empty()
        } else {
            " "@ + a.name + "=\""@ + t + "\""@
        }
    }
}

/// Whether a sequence of children is one text node.
pub open spec fn is_lone_text(cs: Seq<Node>) -> bool {
    cs.len() == 1 && is_text_spec(cs[0])
}

/// The markup of a leaf.
pub open spec fn leaf_text(l: Leaf) -> Seq<char> {
    match l {
        Leaf::Text(s) => s@,
        Leaf::SafeHtml(s) => s@,
        Leaf::Comment(s) => "<!--"@ + s@ + "-->"@,
        Leaf::DocType(s) => "<!doctype "@ + s@ + ">"@,
    }
}

/// The markup of a node at a level of indentation. An element whose only
/// child is a text node holds it on the same line as its tags; otherwise
/// each child stands on a line of its own, one level deeper, and the closing
/// tag on a new line at the element's level. A list of nodes is the markup
/// of its nodes one after the other.
pub open spec fn render_spec(n: Node, indent: nat) -> Seq<char>
    decreases n, 0int,
{
    match n {
        Node::Element(e) => element_markup(e, indent),
        Node::Leaf(l) => leaf_text(l),
        Node::NodeList(cs) => render_seq(cs@, 0, indent, false),
        Node::Fragment(cs) => render_seq(cs@, 0, indent, false),
    }
}

/// The markup of an element: its tags, its merged attributes, and its
/// children (see `render_spec`).
pub open spec fn element_markup(e: Element, indent: nat) -> Seq<char>
    decreases e, 0int,
{
    let cs = e.children@;
    let body = if is_lone_text(cs) {
        render_spec(cs[0], indent)
    } else if cs.len() == 0 {
        Seq::empty()
    } else {
        render_seq(cs, 0, indent + 1, true) + "\n"@ + indent_text(indent)
    };
    "<"@ + e.tag@ + attrs_text(merge_spec(attrs_view(e.attrs@))) + ">"@ + body + "</"@ + e.tag@
        + ">"@
}

/// The markup of `cs[i..]`, each node on a new indented line when `lines`
/// holds, one after the other otherwise.
pub open spec fn render_seq(cs: Seq<Node>, i: int, indent: nat, lines: bool) -> Seq<char>
    decreases cs, cs.len() - i,
{
    if i < 0 || i >= cs.len() {
        Seq::empty()
    } else {
        let head = if lines {
            "\n"@ + indent_text(indent) + render_spec(cs[i], indent)
        } else {
            render_spec(cs[i], indent)
        };
        head + render_seq(cs, i + 1, indent, lines)
    }
}

/// The number of nested element levels in a node.
pub open spec fn depth(n: Node) -> nat
    decreases n, 0int,
{
    match n {
        Node::Element(e) => element_depth(e),
        Node::Leaf(_) => 0,
        Node::NodeList(cs) => depth_seq(cs@, 0),
        Node::Fragment(cs) => depth_seq(cs@, 0),
    }
}

/// The number of nested element levels in an element.
pub open spec fn element_depth(e: Element) -> nat
    decreases e, 0int,
{
    1 + depth_seq(e.children@, 0)
}

/// The greatest depth among `cs[i..]`.
pub open spec fn depth_seq(cs: Seq<Node>, i: int) -> nat
    decreases cs, cs.len() - i,
{
    if i < 0 || i >= cs.len() {
        0
    } else {
        let d = depth(cs[i]);
        let r = depth_seq(cs, i + 1);
        if d >= r {
            d
        } else {
            r
        }
    }
}

proof fn lemma_depth_seq(cs: Seq<Node>, i: int, j: int)
    requires
        0 <= i <= j < cs.len(),
    ensures
        depth_seq(cs, i) >= depth(cs[j]),
        depth_seq(cs, i) >= depth_seq(cs, j),
    decreases j - i,
{
    if i < j {
        lemma_depth_seq(cs, i + 1, j);
    }
}

fn push_indent(buf: &mut String, n: usize)
    ensures
        final(buf)@ == old(buf)@ + indent_text(n as nat),
{
    let mut i: usize = 0;
    while i < n
        invariant
            i <= n,
            buf@ == old(buf)@ + indent_text(i as nat),
        decreases n - i,
    {
        proof {
            reveal_strlit("    ");
        }
        buf.append("    ");
        assert(buf@ =~= old(buf)@ + indent_text((i + 1) as nat));
        i = i + 1;
    }
}

/// Writes the merged attributes of an element.
fn render_attrs(attrs: &Vec<Attribute>, buf: &mut String)
    ensures
        final(buf)@ == old(buf)@ + attrs_text(merge_spec(attrs_view(attrs@))),
{
    let mut rest = merge_attributes_of_same_name(attrs);
    let ghost mv = attrs_view(rest@);
    let n = rest.len();
    let mut i: usize = 0;
    assert(mv.take(0) =~= Seq::<AttributeView>::empty());
    while i < n
        invariant
            n == mv.len(),
            i <= n,
            attrs_view(rest@) == mv.skip(i as int),
            rest@.len() == n - i,
            buf@ == old(buf)@ + attrs_text(mv.take(i as int)),
        decreases n - i,
    {
        let ghost old_rest = rest@;
        assert(attrs_view(old_rest)[0] == old_rest[0]@);
        let a = rest.remove(0);
        proof {
            assert forall|k: int| 0 <= k < rest@.len() implies attrs_view(rest@)[k] == mv.skip(
                i + 1,
            )[k] by {
                assert(rest@[k] == old_rest[k + 1]);
                assert(attrs_view(old_rest)[k + 1] == old_rest[k + 1]@);
            }
            assert(attrs_view(rest@) =~= mv.skip(i + 1));
            assert(mv.take(i + 1).drop_last() =~= mv.take(i as int));
            assert(a@ == mv[i as int]);
            reveal_strlit(" ");
            reveal_strlit("=\"");
            reveal_strlit("\"");
        }
        let ghost before = buf@;
        let ghost av = a@;
        let (_, plain, _) = partition_callbacks_from_plain_and_func_calls(a.value);
        match merge_plain_attributes_values(&plain) {
            Some(t) => {
                buf.append(" ");
                buf.append(a.name.as_str());
                buf.append("=\"");
                buf.append(t.as_str());
                buf.append("\"");
                assert(buf@ =~= before + (" "@ + av.name + "=\""@ + attr_plain_text(av) + "\""@));
            },
            None => {
                assert(buf@ =~= before + Seq::<char>::empty());
            },
        }
        i = i + 1;
    }
    assert(mv.take(n as int) =~= mv);
}

/// Writes the markup of `cs` (see `render_seq`).
fn render_children(cs: &Vec<Node>, indent: usize, lines: bool, buf: &mut String)
    requires
        indent + depth_seq(cs@, 0) <= usize::MAX,
    ensures
        final(buf)@ == old(buf)@ + render_seq(cs@, 0, indent as nat, lines),
    decreases cs, 1int,
{
    let mut i: usize = 0;
    while i < cs.len()
        invariant
            i <= cs.len(),
            indent + depth_seq(cs@, 0) <= usize::MAX,
            buf@ + render_seq(cs@, i as int, indent as nat, lines) == old(buf)@ + render_seq(
                cs@,
                0,
                indent as nat,
                lines,
            ),
        decreases cs.len() - i,
    {
        proof {
            lemma_depth_seq(cs@, 0, i as int);
            reveal_strlit("\n");
        }
        let ghost before = buf@;
        if lines {
            buf.append("\n");
            push_indent(buf, indent);
        }
        render_node(&cs[i], indent, buf);
        assert(buf@ + render_seq(cs@, i + 1, indent as nat, lines) =~= before + render_seq(
            cs@,
            i as int,
            indent as nat,
            lines,
        ));
        i = i + 1;
    }
    assert(buf@ =~= buf@ + render_seq(cs@, i as int, indent as nat, lines));
}

/// Writes the markup of an element at the given level of indentation.
fn render_element(e: &Element, indent: usize, buf: &mut String)
    requires
        indent + element_depth(*e) <= usize::MAX,
    ensures
        final(buf)@ == old(buf)@ + element_markup(*e, indent as nat),
    decreases e, 0int,
{
    proof {
        reveal_strlit("<");
        reveal_strlit(">");
        reveal_strlit("</");
        reveal_strlit("\n");
    }
    let ghost before = buf@;
    buf.append("<");
    buf.append(e.tag.as_str());
    render_attrs(&e.attrs, buf);
    buf.append(">");
    let cs = &e.children;
    if cs.len() == 1 && cs[0].is_text() {
        proof {
            lemma_depth_seq(cs@, 0, 0);
        }
        render_node(&cs[0], indent, buf);
    } else if cs.len() > 0 {
        render_children(cs, indent + 1, true, buf);
        buf.append("\n");
        push_indent(buf, indent);
    }
    buf.append("</");
    buf.append(e.tag.as_str());
    buf.append(">");
    assert(buf@ =~= before + element_markup(*e, indent as nat));
}

/// Writes the markup of `n` at the given level of indentation.
fn render_node(n: &Node, indent: usize, buf: &mut String)
    requires
        indent + depth(*n) <= usize::MAX,
    ensures
        final(buf)@ == old(buf)@ + render_spec(*n, indent as nat),
    decreases n, 0int,
{
    proof {
        reveal_strlit(">");
        reveal_strlit("<!--");
        reveal_strlit("-->");
        reveal_strlit("<!doctype ");
    }
    let ghost before = buf@;
    match n {
        Node::Element(e) => {
            render_element(e, indent, buf);
        },
        Node::Leaf(l) => {
            match l {
                Leaf::Text(s) => buf.append(s.as_str()),
                Leaf::SafeHtml(s) => buf.append(s.as_str()),
                Leaf::Comment(s) => {
                    buf.append("<!--");
                    buf.append(s.as_str());
                    buf.append("-->");
                },
                Leaf::DocType(s) => {
                    buf.append("<!doctype ");
                    buf.append(s.as_str());
                    buf.append(">");
                },
            }
            assert(buf@ =~= before + render_spec(*n, indent as nat));
        },
        Node::NodeList(cs) => {
            render_children(cs, indent, false, buf);
        },
        Node::Fragment(cs) => {
            render_children(cs, indent, false, buf);
        },
    }
}

/// Writes markup into a string buffer.
pub trait Render {
    /// The markup of this value at a level of indentation.
    spec fn markup(&self, indent: nat) -> Seq<char>;

    /// Whether this value nests shallowly enough to be written at `indent`.
    spec fn fits(&self, indent: nat) -> bool;

    /// Writes the markup of this value.
    fn render(&self, buffer: &mut String)
        requires
            self.fits(0),
        ensures
            final(buffer)@ == old(buffer)@ + self.markup(0),
    ;

    /// Writes the markup of this value at a level of indentation.
    fn render_with_indent(&self, buffer: &mut String, indent: usize)
        requires
            self.fits(indent as nat),
        ensures
            final(buffer)@ == old(buffer)@ + self.markup(indent as nat),
    ;
}

impl Render for Node {
    open spec fn markup(&self, indent: nat) -> Seq<char> {
        render_spec(*self, indent)
    }

    open spec fn fits(&self, indent: nat) -> bool {
        indent + depth(*self) <= usize::MAX
    }

    fn render(&self, buffer: &mut String) {
        render_node(self, 0, buffer);
    }

    fn render_with_indent(&self, buffer: &mut String, indent: usize) {
        render_node(self, indent, buffer);
    }
}

impl Render for Element {
    open spec fn markup(&self, indent: nat) -> Seq<char> {
        element_markup(*self, indent)
    }

    open spec fn fits(&self, indent: nat) -> bool {
        indent + element_depth(*self) <= usize::MAX
    }

    fn render(&self, buffer: &mut String) {
        render_element(self, 0, buffer);
    }

    fn render_with_indent(&self, buffer: &mut String, indent: usize) {
        render_element(self, indent, buffer);
    }
}

/// The markup of a tree as a new string.
pub fn render_to_string(n: &Node) -> (r: String)
    requires
        depth(*n) <= usize::MAX,
    ensures
        r@ == render_spec(*n, 0),
{
    let mut buf = String::new();
    render_node(n, 0, &mut buf);
    assert(buf@ =~= render_spec(*n, 0));
    buf
}

/// An element whose only child is a text node holds it on the same line as
/// its tags.
pub proof fn lemma_render_lone_text(n: Node, indent: nat)
    requires
        n is Element,
        is_lone_text(n->Element_0.children@),
    ensures
        render_spec(n, indent) == "<"@ + n->Element_0.tag@ + attrs_text(
            merge_spec(attrs_view(n->Element_0.attrs@)),
        ) + ">"@ + leaf_text(n->Element_0.children@[0]->Leaf_0) + "</"@ + n->Element_0.tag@
            + ">"@,
{
    let c = n->Element_0.children@[0];
    assert(render_spec(c, indent) == leaf_text(c->Leaf_0));
}

/// An element with two element children puts each on a line of its own,
/// indented one level deeper, and its closing tag on a new line.
pub proof fn lemma_render_two_children(n: Node, indent: nat)
    requires
        n is Element,
        n->Element_0.children@.len() == 2,
        n->Element_0.children@[0] is Element,
        n->Element_0.children@[1] is Element,
    ensures
        render_spec(n, indent) == "<"@ + n->Element_0.tag@ + attrs_text(
            merge_spec(attrs_view(n->Element_0.attrs@)),
        ) + ">"@ + "\n"@ + indent_text(indent + 1) + render_spec(
            n->Element_0.children@[0],
            indent + 1,
        ) + "\n"@ + indent_text(indent + 1) + render_spec(n->Element_0.children@[1], indent + 1)
            + "\n"@ + indent_text(indent) + "</"@ + n->Element_0.tag@ + ">"@,
{
    let cs = n->Element_0.children@;
    assert(render_seq(cs, 2, indent + 1, true) == Seq::<char>::empty());
    let a = "\n"@ + indent_text(indent + 1) + render_spec(cs[0], indent + 1);
    let b = "\n"@ + indent_text(indent + 1) + render_spec(cs[1], indent + 1);
    assert(render_seq(cs, 1, indent + 1, true) =~= b);
    assert(render_seq(cs, 0, indent + 1, true) =~= a + b);
    assert(render_spec(n, indent) =~= "<"@ + n->Element_0.tag@ + attrs_text(
        merge_spec(attrs_view(n->Element_0.attrs@)),
    ) + ">"@ + "\n"@ + indent_text(indent + 1) + render_spec(cs[0], indent + 1) + "\n"@
        + indent_text(indent + 1) + render_spec(cs[1], indent + 1) + "\n"@ + indent_text(indent)
        + "</"@ + n->Element_0.tag@ + ">"@);
}

} // verus!
