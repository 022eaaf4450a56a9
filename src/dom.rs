//! The operations that materialize a tree into a live tree, decided here and
//! carried out by a live-tree backend: which attributes are set, removed or
//! turned into widget state, which behavior bindings are attached under which
//! identifiers, and where separators keep text nodes apart.
use crate::attributes::{
    is_blank, is_plain, merge_attributes_of_same_name, merge_plain_attributes_values, merge_spec,
    merged_text, partition_callbacks_from_plain_and_func_calls,
};
use crate::node::{attrs_view, Attribute, AttributeValue, AttributeView, Element, Leaf, Node};
use vstd::prelude::*;
use vstd::string::*;

verus! {

/// A source of identifiers for nodes that own behavior bindings; each
/// identifier is greater than every one handed out before.
#[derive(Debug)]
pub struct IdGenerator {
    pub last: u64,
}

impl IdGenerator {
    /// A generator that has handed out nothing yet.
    pub fn new() -> (r: IdGenerator)
        ensures
            r.last == 0,
    {
        IdGenerator { last: 0 }
    }

    /// The next identifier: one more than the last.
    pub fn create_unique_identifier(&mut self) -> (r: u64)
        requires
            old(self).last < u64::MAX,
        ensures
            r == old(self).last + 1,
            final(self).last == r,
    {
        self.last = self.last + 1;
        self.last
    }
}

/// An operation on the element that is being built.
#[derive(Debug, PartialEq, Eq)]
pub enum AttrOp {
    /// Set a namespaced attribute.
    SetAttributeNs { namespace: String, name: String, value: String },
    /// Set the value state of an input or text-area widget.
    SetValue(String),
    /// Set the checked state of an input widget.
    SetChecked,
    /// Set a plain attribute.
    SetAttribute { name: String, value: String },
    /// Remove an attribute.
    RemoveAttribute(String),
    /// Inject raw content into the element.
    SetInnerHtml(String),
    /// Mark the element with `id` and bind `callback` to the event `event`.
    AddListener { id: u64, event: String, callback: u64 },
}

/// An operation on the live tree. Operations are carried out in order
/// against a current parent, at first the node under which the tree goes.
#[derive(Debug, PartialEq, Eq)]
pub enum DomOp {
    /// Create an element and make it the current parent.
    OpenElement { namespace: Option<String>, tag: String },
    /// Append the current element to its parent, which becomes current again.
    CloseElement,
    /// Append a text node.
    AppendText(String),
    /// Append the separator comment that keeps two text nodes apart.
    AppendSeparator,
    /// Append a comment node.
    AppendComment(String),
    /// Append markup as it is.
    AppendRaw(String),
    /// An operation on the current element.
    Attr(AttrOp),
}

/// The mathematical view of an operation on an element.
pub enum AttrOpView {
    SetAttributeNs { namespace: Seq<char>, name: Seq<char>, value: Seq<char> },
    SetValue(Seq<char>),
    SetChecked,
    SetAttribute { name: Seq<char>, value: Seq<char> },
    RemoveAttribute(Seq<char>),
    SetInnerHtml(Seq<char>),
    AddListener { id: nat, event: Seq<char>, callback: u64 },
}

/// The mathematical view of an operation on the live tree.
pub enum DomOpView {
    OpenElement { namespace: Option<Seq<char>>, tag: Seq<char> },
    CloseElement,
    AppendText(Seq<char>),
    AppendSeparator,
    AppendComment(Seq<char>),
    AppendRaw(Seq<char>),
    Attr(AttrOpView),
}

impl View for AttrOp {
    type V = AttrOpView;

    open spec fn view(&self) -> AttrOpView {
        match self {
            AttrOp::SetAttributeNs { namespace, name, value } => AttrOpView::SetAttributeNs {
                namespace: namespace@,
                name: name@,
                value: value@,
            },
            AttrOp::SetValue(v) => AttrOpView::SetValue(v@),
            AttrOp::SetChecked => AttrOpView::SetChecked,
            AttrOp::SetAttribute { name, value } => AttrOpView::SetAttribute {
                name: name@,
                value: value@,
            },
            AttrOp::RemoveAttribute(n) => AttrOpView::RemoveAttribute(n@),
            AttrOp::SetInnerHtml(v) => AttrOpView::SetInnerHtml(v@),
            AttrOp::AddListener { id, event, callback } => AttrOpView::AddListener {
                id: *id as nat,
                event: event@,
                callback: *callback,
            },
        }
    }
}

impl View for DomOp {
    type V = DomOpView;

    open spec fn view(&self) -> DomOpView {
        match self {
            DomOp::OpenElement { namespace, tag } => DomOpView::OpenElement {
                namespace: match namespace {
                    Some(ns) => Some(ns@),
                    None => None,
                },
                tag: tag@,
            },
            DomOp::CloseElement => DomOpView::CloseElement,
            DomOp::AppendText(s) => DomOpView::AppendText(s@),
            DomOp::AppendSeparator => DomOpView::AppendSeparator,
            DomOp::AppendComment(s) => DomOpView::AppendComment(s@),
            DomOp::AppendRaw(s) => DomOpView::AppendRaw(s@),
            DomOp::Attr(a) => DomOpView::Attr(a@),
        }
    }
}

/// The view of a sequence of operations.
pub open spec fn ops_view(s: Seq<DomOp>) -> Seq<DomOpView> {
    s.map_values(|o: DomOp| o@)
}

/// The view of a sequence of operations on an element.
pub open spec fn attr_ops_view(s: Seq<AttrOp>) -> Seq<AttrOpView> {
    s.map_values(|o: AttrOp| o@)
}

/// The callback tokens among the values, in order.
pub open spec fn callbacks_of(vals: Seq<AttributeValue>) -> Seq<u64> {
    vals.filter(|v: AttributeValue| v is Callback).map_values(|v: AttributeValue| v->Callback_0)
}

/// What the plain values of an attribute come to: a namespaced attribute; the
/// value state of a widget for `value`; the checked state for `checked` when
/// its first plain value is a non-empty scalar; a plain attribute otherwise.
/// An attribute whose plain text is blank is removed.
pub open spec fn plain_ops(a: AttributeView) -> Seq<AttrOpView> {
    let plain = a.value.filter(|v: AttributeValue| is_plain(v));
    let t = merged_text(plain);
    if is_blank(t) {
        seq![AttrOpView::RemoveAttribute(a.name)]
    } else if a.namespace is Some {
        seq![AttrOpView::SetAttributeNs { namespace: a.namespace->0, name: a.name, value: t }]
    } else if a.name == "value"@ {
        seq![AttrOpView::SetValue(t)]
    } else if a.name == "checked"@ {
        if plain[0] is Simple && plain[0]->Simple_0@.len() > 0 {
            seq![AttrOpView::SetChecked]
        } else {
            Seq::empty()
        }
    } else {
        seq![AttrOpView::SetAttribute { name: a.name, value: t }]
    }
}

/// Raw content injected by an `inner_html` attribute whose function-call
/// values are not blank.
pub open spec fn func_ops(a: AttributeView) -> Seq<AttrOpView> {
    let t = merged_text(a.value.filter(|v: AttributeValue| v is FunctionCall));
    if !is_blank(t) && a.name == "inner_html"@ {
        seq![AttrOpView::SetInnerHtml(t)]
    } else {
        Seq::empty()
    }
}

/// One binding per callback, in order, under the identifiers that follow `id`.
pub open spec fn listener_ops(a: AttributeView, id: nat) -> Seq<AttrOpView> {
    let cbs = callbacks_of(a.value);
    Seq::new(
        cbs.len(),
        |k: int| AttrOpView::AddListener { id: (id + k + 1) as nat, event: a.name, callback: cbs[k] },
    )
}

/// The operations for one merged attribute, identifiers following `id`.
pub open spec fn attr_ops(a: AttributeView, id: nat) -> Seq<AttrOpView> {
    plain_ops(a) + func_ops(a) + listener_ops(a, id)
}

/// Wraps operations on an element as operations on the live tree.
pub open spec fn lift(s: Seq<AttrOpView>) -> Seq<DomOpView> {
    s.map_values(|o: AttrOpView| DomOpView::Attr(o))
}

/// The number of callbacks among merged attributes.
pub open spec fn callback_count(m: Seq<AttributeView>) -> nat
    decreases m.len(),
{
    if m.len() == 0 {
        0
    } else {
        callback_count(m.drop_last()) + callbacks_of(m.last().value).len()
    }
}

/// The operations for merged attributes, identifiers following `id`.
pub open spec fn attrs_ops(m: Seq<AttributeView>, id: nat) -> Seq<DomOpView>
    decreases m.len(),
{
    if m.len() == 0 {
        Seq::empty()
    } else {
        attrs_ops(m.drop_last(), id) + lift(
            attr_ops(m.last(), id + callback_count(m.drop_last())),
        )
    }
}

proof fn lemma_callback_count_prefix(m: Seq<AttributeView>, i: int)
    requires
        0 <= i <= m.len(),
    ensures
        callback_count(m.take(i)) <= callback_count(m),
    decreases m.len() - i,
{
    if i < m.len() {
        lemma_callback_count_prefix(m, i + 1);
        assert(m.take(i + 1).drop_last() =~= m.take(i));
    } else {
        assert(m.take(i) =~= m);
    }
}

/// Whether the last node appended to the current parent is a text node,
/// after `n` is materialized where `prev` said so before.
pub open spec fn ends_with_text(n: Node, prev: bool) -> bool
    decreases n, 0int,
{
    match n {
        Node::Element(_) => false,
        Node::Leaf(Leaf::Text(_)) => true,
        Node::Leaf(Leaf::DocType(_)) => prev,
        Node::Leaf(_) => false,
        Node::NodeList(cs) => ends_with_text_seq(cs@, 0, prev),
        Node::Fragment(cs) => ends_with_text_seq(cs@, 0, prev),
    }
}

/// `ends_with_text` over `cs[i..]`.
pub open spec fn ends_with_text_seq(cs: Seq<Node>, i: int, prev: bool) -> bool
    decreases cs, cs.len() - i,
{
    if i < 0 || i >= cs.len() {
        prev
    } else {
        ends_with_text_seq(cs, i + 1, ends_with_text(cs[i], prev))
    }
}

/// The number of callbacks in a tree.
pub open spec fn node_callbacks(n: Node) -> nat
    decreases n, 0int,
{
    match n {
        Node::Element(e) => element_callbacks(e),
        Node::Leaf(_) => 0,
        Node::NodeList(cs) => seq_callbacks(cs@, 0),
        Node::Fragment(cs) => seq_callbacks(cs@, 0),
    }
}

/// The number of callbacks in `cs[i..]`.
pub open spec fn seq_callbacks(cs: Seq<Node>, i: int) -> nat
    decreases cs, cs.len() - i,
{
    if i < 0 || i >= cs.len() {
        0
    } else {
        node_callbacks(cs[i]) + seq_callbacks(cs, i + 1)
    }
}

/// The operations that materialize `n` under the current parent, where
/// `prev` says whether the last node there is a text node, and binding
/// identifiers follow `id`. A text node that would follow a text node is
/// preceded by a separator; lists of nodes are spliced in place.
pub open spec fn node_ops(n: Node, prev: bool, id: nat) -> Seq<DomOpView>
    decreases n, 0int,
{
    match n {
        Node::Element(e) => element_ops(e, id),
        Node::Leaf(Leaf::Text(s)) => if prev {
            seq![DomOpView::AppendSeparator, DomOpView::AppendText(s@)]
        } else {
            seq![DomOpView::AppendText(s@)]
        },
        Node::Leaf(Leaf::Comment(s)) => seq![DomOpView::AppendComment(s@)],
        Node::Leaf(Leaf::SafeHtml(s)) => seq![DomOpView::AppendRaw(s@)],
        Node::Leaf(Leaf::DocType(_)) => Seq::empty(),
        Node::NodeList(cs) => seq_ops(cs@, 0, prev, id),
        Node::Fragment(cs) => seq_ops(cs@, 0, prev, id),
    }
}

/// The operations that materialize an element: it is opened, its merged
/// attributes applied, its children materialized in it, and it is closed.
pub open spec fn element_ops(e: Element, id: nat) -> Seq<DomOpView>
    decreases e, 0int,
{
    let m = merge_spec(attrs_view(e.attrs@));
    seq![
        DomOpView::OpenElement {
            namespace: match e.namespace {
                Some(ns) => Some(ns@),
                None => None,
            },
            tag: e.tag@,
        },
    ] + attrs_ops(m, id) + seq_ops(e.children@, 0, false, id + callback_count(m)) + seq![
        DomOpView::CloseElement,
    ]
}

/// The number of callbacks in an element and its descendants.
pub open spec fn element_callbacks(e: Element) -> nat
    decreases e, 0int,
{
    callback_count(merge_spec(attrs_view(e.attrs@))) + seq_callbacks(e.children@, 0)
}

/// `node_ops` over `cs[i..]`, one node after the other.
pub open spec fn seq_ops(cs: Seq<Node>, i: int, prev: bool, id: nat) -> Seq<DomOpView>
    decreases cs, cs.len() - i,
{
    if i < 0 || i >= cs.len() {
        Seq::empty()
    } else {
        node_ops(cs[i], prev, id) + seq_ops(
            cs,
            i + 1,
            ends_with_text(cs[i], prev),
            id + node_callbacks(cs[i]),
        )
    }
}

fn str_eq(a: &String, b: &str) -> (r: bool)
    ensures
        r == (a@ == b@),
{
    let o = b.to_owned();
    *a == o
}

/// The operations for one merged attribute: see `attr_ops`.
pub fn plan_element_attribute(attr: Attribute, ids: &mut IdGenerator, ops: &mut Vec<DomOp>)
    requires
        old(ids).last + callbacks_of(attr@.value).len() <= u64::MAX,
    ensures
        ops_view(final(ops)@) == ops_view(old(ops)@) + lift(attr_ops(attr@, old(ids).last as nat)),
        final(ids).last == old(ids).last + callbacks_of(attr@.value).len(),
{
    let ghost a = attr@;
    let ghost id0 = ids.last as nat;
    let ghost ops0 = ops@;
    let Attribute { namespace, name, value } = attr;
    let (cbs, plain, funcs) = partition_callbacks_from_plain_and_func_calls(value);
    let mut local: Vec<AttrOp> = Vec::new();
    match merge_plain_attributes_values(&plain) {
        None => local.push(AttrOp::RemoveAttribute(name.clone())),
        Some(t) => {
            proof {
                if plain@.len() == 0 {
                    assert(merged_text(plain@) == Seq::<char>::empty());
                }
            }
            match namespace {
                Some(ns) => local.push(
                    AttrOp::SetAttributeNs { namespace: ns, name: name.clone(), value: t },
                ),
                None => {
                    if str_eq(&name, "value") {
                        local.push(AttrOp::SetValue(t));
                    } else if str_eq(&name, "checked") {
                        let non_empty = match &plain[0] {
                            AttributeValue::Simple(s) => s.as_str().unicode_len() > 0,
                            _ => false,
                        };
                        if non_empty {
                            local.push(AttrOp::SetChecked);
                        }
                    } else {
                        local.push(AttrOp::SetAttribute { name: name.clone(), value: t });
                    }
                },
            }
        },
    }
    let ghost n_plain = local@.len();
    match merge_plain_attributes_values(&funcs) {
        Some(f) => {
            if str_eq(&name, "inner_html") {
                local.push(AttrOp::SetInnerHtml(f));
            }
        },
        None => {},
    }
    assert(attr_ops_view(local@) =~= plain_ops(a) + func_ops(a));
    let mut k: usize = 0;
    while k < cbs.len()
        invariant
            k <= cbs.len(),
            cbs@ == callbacks_of(a.value),
            name@ == a.name,
            id0 + cbs.len() <= u64::MAX,
            ids.last == id0 + k,
            attr_ops_view(local@) == plain_ops(a) + func_ops(a) + listener_ops(
                a,
                id0,
            ).take(k as int),
        decreases cbs.len() - k,
    {
        let id = ids.create_unique_identifier();
        let ghost old_local = local@;
        let ev = name.clone();
        let op = AttrOp::AddListener { id, event: ev, callback: cbs[k] };
        assert(op@ == AttrOpView::AddListener { id: id as nat, event: a.name, callback: cbs@[k as int] });
        local.push(op);
        assert(attr_ops_view(local@) =~= attr_ops_view(old_local).push(
            AttrOpView::AddListener { id: id as nat, event: a.name, callback: cbs@[k as int] },
        ));
        assert(listener_ops(a, id0).take(k + 1) =~= listener_ops(a, id0).take(k as int).push(
            AttrOpView::AddListener { id: id as nat, event: a.name, callback: cbs@[k as int] },
        ));
        assert(attr_ops_view(local@) =~= plain_ops(a) + func_ops(a) + listener_ops(
            a,
            id0,
        ).take(k + 1));
        k = k + 1;
    }
    assert(listener_ops(a, id0).take(cbs.len() as int) =~= listener_ops(a, id0));
    let ghost lv = attr_ops_view(local@);
    let mut j: usize = 0;
    let n = local.len();
    while j < n
        invariant
            j <= n,
            n == lv.len(),
            attr_ops_view(local@) == lv.skip(j as int),
            local@.len() == n - j,
            ops_view(ops@) == ops_view(ops0) + lift(lv.take(j as int)),
        decreases n - j,
    {
        let ghost before = local@;
        assert(attr_ops_view(before)[0] == before[0]@);
        let o = local.remove(0);
        proof {
            assert forall|x: int| 0 <= x < local@.len() implies #[trigger] attr_ops_view(local@)[x] == lv.skip(j + 1)[x] by {
                assert(local@[x] == before[x + 1]);
                assert(attr_ops_view(before)[x + 1] == before[x + 1]@);
            }
            assert(attr_ops_view(local@) =~= lv.skip(j + 1));
        }
        let ghost ops_before = ops@;
        assert(o@ == lv[j as int]);
        ops.push(DomOp::Attr(o));
        assert(ops_view(ops@) =~= ops_view(ops_before).push(DomOpView::Attr(lv[j as int])));
        assert(lift(lv.take(j + 1)) =~= lift(lv.take(j as int)).push(DomOpView::Attr(lv[j as int])));
        assert(ops_view(ops@) =~= ops_view(ops0) + lift(lv.take(j + 1)));
        j = j + 1;
    }
    assert(lv.take(n as int) =~= lv);
}

/// The operations for the attributes of an element: attributes that share a
/// name are merged first (see `attrs_ops`).
pub fn plan_element_attributes(attrs: &Vec<Attribute>, ids: &mut IdGenerator, ops: &mut Vec<DomOp>)
    requires
        old(ids).last + callback_count(merge_spec(attrs_view(attrs@))) <= u64::MAX,
    ensures
        ops_view(final(ops)@) == ops_view(old(ops)@) + attrs_ops(
            merge_spec(attrs_view(attrs@)),
            old(ids).last as nat,
        ),
        final(ids).last == old(ids).last + callback_count(merge_spec(attrs_view(attrs@))),
{
    let mut rest = merge_attributes_of_same_name(attrs);
    let ghost mv = attrs_view(rest@);
    let ghost id0 = ids.last as nat;
    let n = rest.len();
    let mut i: usize = 0;
    assert(mv.take(0) =~= Seq::<AttributeView>::empty());
    while i < n
        invariant
            n == mv.len(),
            i <= n,
            attrs_view(rest@) == mv.skip(i as int),
            rest@.len() == n - i,
            id0 + callback_count(mv) <= u64::MAX,
            ids.last == id0 + callback_count(mv.take(i as int)),
            ops_view(ops@) == ops_view(old(ops)@) + attrs_ops(mv.take(i as int), id0),
        decreases n - i,
    {
        let ghost old_rest = rest@;
        assert(attrs_view(old_rest)[0] == old_rest[0]@);
        let a = rest.remove(0);
        proof {
            assert forall|k: int| 0 <= k < rest@.len() implies attrs_view(rest@)[k] == mv.skip(
                i + 1,
            )[k] by {
                assert(rest@[k] == old_rest[k + 1]);
                assert(attrs_view(old_rest)[k + 1] == old_rest[k + 1]@);
            }
            assert(attrs_view(rest@) =~= mv.skip(i + 1));
            assert(mv.take(i + 1).drop_last() =~= mv.take(i as int));
            assert(a@ == mv[i as int]);
            lemma_callback_count_prefix(mv, i + 1);
        }
        plan_element_attribute(a, ids, ops);
        i = i + 1;
    }
    assert(mv.take(n as int) =~= mv);
}

/// Appends the operations that materialize an element (see `element_ops`).
pub fn plan_element(e: &Element, ids: &mut IdGenerator, ops: &mut Vec<DomOp>)
    requires
        old(ids).last + element_callbacks(*e) <= u64::MAX,
    ensures
        ops_view(final(ops)@) == ops_view(old(ops)@) + element_ops(*e, old(ids).last as nat),
        final(ids).last == old(ids).last + element_callbacks(*e),
    decreases e, 0int,
{
    let ghost ops0 = ops@;
    let ns = match &e.namespace {
        Some(x) => Some(x.clone()),
        None => None,
    };
    ops.push(DomOp::OpenElement { namespace: ns, tag: e.tag.clone() });
    let ghost ops1 = ops@;
    assert(ops_view(ops1) =~= ops_view(ops0).push(ops1.last()@));
    plan_element_attributes(&e.attrs, ids, ops);
    plan_children(&e.children, false, ids, ops);
    let ghost ops3 = ops@;
    ops.push(DomOp::CloseElement);
    assert(ops_view(ops@) =~= ops_view(ops3).push(DomOpView::CloseElement));
    assert(ops_view(ops@) =~= ops_view(ops0) + element_ops(*e, old(ids).last as nat));
}

/// The operations that materialize an element under a parent, with binding
/// identifiers taken from `ids`.
pub fn create_element_node(e: &Element, ids: &mut IdGenerator) -> (r: Vec<DomOp>)
    requires
        old(ids).last + element_callbacks(*e) <= u64::MAX,
    ensures
        ops_view(r@) == element_ops(*e, old(ids).last as nat),
        final(ids).last == old(ids).last + element_callbacks(*e),
{
    let mut ops: Vec<DomOp> = Vec::new();
    plan_element(e, ids, &mut ops);
    assert(ops_view(ops@) =~= element_ops(*e, old(ids).last as nat));
    ops
}

/// Appends the operations that materialize `n` (see `node_ops`) and returns
/// whether the last node appended is then a text node.
pub fn plan_node(n: &Node, prev: bool, ids: &mut IdGenerator, ops: &mut Vec<DomOp>) -> (r: bool)
    requires
        old(ids).last + node_callbacks(*n) <= u64::MAX,
    ensures
        ops_view(final(ops)@) == ops_view(old(ops)@) + node_ops(*n, prev, old(ids).last as nat),
        final(ids).last == old(ids).last + node_callbacks(*n),
        r == ends_with_text(*n, prev),
    decreases n, 0int,
{
    let ghost ops0 = ops@;
    match n {
        Node::Element(e) => {
            plan_element(e, ids, ops);
            false
        },
        Node::Leaf(Leaf::Text(s)) => {
            if prev {
                ops.push(DomOp::AppendSeparator);
            }
            let ghost ops1 = ops@;
            ops.push(DomOp::AppendText(s.clone()));
            assert(ops_view(ops@) =~= ops_view(ops1).push(DomOpView::AppendText(s@)));
            assert(ops_view(ops@) =~= ops_view(ops0) + node_ops(*n, prev, old(ids).last as nat));
            true
        },
        Node::Leaf(Leaf::Comment(s)) => {
            ops.push(DomOp::AppendComment(s.clone()));
            assert(ops_view(ops@) =~= ops_view(ops0) + node_ops(*n, prev, old(ids).last as nat));
            false
        },
        Node::Leaf(Leaf::SafeHtml(s)) => {
            ops.push(DomOp::AppendRaw(s.clone()));
            assert(ops_view(ops@) =~= ops_view(ops0) + node_ops(*n, prev, old(ids).last as nat));
            false
        },
        Node::Leaf(Leaf::DocType(_)) => {
            assert(ops_view(ops@) =~= ops_view(ops0) + node_ops(*n, prev, old(ids).last as nat));
            prev
        },
        Node::NodeList(cs) => plan_children(cs, prev, ids, ops),
        Node::Fragment(cs) => plan_children(cs, prev, ids, ops),
    }
}

/// Appends the operations that materialize `cs` one after the other (see
/// `seq_ops`) and returns whether the last node appended is a text node.
pub fn plan_children(cs: &Vec<Node>, prev: bool, ids: &mut IdGenerator, ops: &mut Vec<DomOp>) -> (r: bool)
    requires
        old(ids).last + seq_callbacks(cs@, 0) <= u64::MAX,
    ensures
        ops_view(final(ops)@) == ops_view(old(ops)@) + seq_ops(cs@, 0, prev, old(ids).last as nat),
        final(ids).last == old(ids).last + seq_callbacks(cs@, 0),
        r == ends_with_text_seq(cs@, 0, prev),
    decreases cs, 1int,
{
    let ghost id0 = ids.last as nat;
    let mut p = prev;
    let mut i: usize = 0;
    while i < cs.len()
        invariant
            i <= cs.len(),
            ids.last + seq_callbacks(cs@, i as int) <= u64::MAX,
            ids.last + seq_callbacks(cs@, i as int) == id0 + seq_callbacks(cs@, 0),
            ends_with_text_seq(cs@, i as int, p) == ends_with_text_seq(cs@, 0, prev),
            ops_view(ops@) + seq_ops(cs@, i as int, p, ids.last as nat) == ops_view(old(ops)@)
                + seq_ops(cs@, 0, prev, id0),
        decreases cs.len() - i,
    {
        let ghost before = ops_view(ops@);
        let ghost id_i = ids.last as nat;
        let ghost p_i = p;
        p = plan_node(&cs[i], p, ids, ops);
        assert(ops_view(ops@) + seq_ops(cs@, i + 1, p, ids.last as nat) =~= before + seq_ops(
            cs@,
            i as int,
            p_i,
            id_i,
        ));
        i = i + 1;
    }
    assert(ops_view(ops@) =~= ops_view(ops@) + seq_ops(cs@, i as int, p, ids.last as nat));
    p
}

/// The operations that materialize a tree under a parent that holds nothing
/// yet, with binding identifiers taken from `ids`.
pub fn create_dom_node(n: &Node, ids: &mut IdGenerator) -> (r: Vec<DomOp>)
    requires
        old(ids).last + node_callbacks(*n) <= u64::MAX,
    ensures
        ops_view(r@) == node_ops(*n, false, old(ids).last as nat),
        final(ids).last == old(ids).last + node_callbacks(*n),
{
    let mut ops: Vec<DomOp> = Vec::new();
    plan_node(n, false, ids, &mut ops);
    assert(ops_view(ops@) =~= node_ops(*n, false, old(ids).last as nat));
    ops
}

/// Whether no two text nodes are appended one right after the other.
pub open spec fn no_adjacent_text_ops(o: Seq<DomOpView>) -> bool {
    forall|i: int|
        0 <= i < o.len() - 1 ==> !(#[trigger] o[i] is AppendText && o[i + 1] is AppendText)
}

/// What holds of the operations `o` that materialize nodes after a text
/// node (when `prev`), and leave a text node last (when `end`).
pub open spec fn text_kept_apart(o: Seq<DomOpView>, prev: bool, end: bool) -> bool {
    &&& no_adjacent_text_ops(o)
    &&& prev && o.len() > 0 ==> !(o[0] is AppendText)
    &&& o.len() > 0 && o.last() is AppendText ==> end
    &&& o.len() == 0 ==> end == prev
}

proof fn lemma_concat_no_adjacent(a: Seq<DomOpView>, b: Seq<DomOpView>)
    requires
        no_adjacent_text_ops(a),
        no_adjacent_text_ops(b),
        !(a.len() > 0 && b.len() > 0 && a.last() is AppendText && b[0] is AppendText),
    ensures
        no_adjacent_text_ops(a + b),
{
    let o = a + b;
    assert forall|i: int| 0 <= i < o.len() - 1 implies !(#[trigger] o[i] is AppendText
        && o[i + 1] is AppendText) by {
        if i < a.len() - 1 {
            assert(o[i] == a[i] && o[i + 1] == a[i + 1]);
        } else if i == a.len() - 1 {
            assert(o[i] == a.last() && o[i + 1] == b[0]);
        } else {
            assert(o[i] == b[i - a.len()] && o[i + 1] == b[i - a.len() + 1]);
        }
    }
}

proof fn lemma_attrs_ops_no_text(m: Seq<AttributeView>, id: nat)
    ensures
        forall|k: int| 0 <= k < attrs_ops(m, id).len() ==> #[trigger] attrs_ops(m, id)[k] is Attr,
    decreases m.len(),
{
    if m.len() > 0 {
        lemma_attrs_ops_no_text(m.drop_last(), id);
        let a = attrs_ops(m.drop_last(), id);
        let l = lift(attr_ops(m.last(), id + callback_count(m.drop_last())));
        assert forall|k: int| 0 <= k < (a + l).len() implies #[trigger] (a + l)[k] is Attr by {
            if k >= a.len() {
                assert((a + l)[k] == l[k - a.len()]);
            }
        }
    }
}

/// The operations that materialize an element never append two text nodes
/// in a row, and neither begin nor end with a text node.
pub proof fn lemma_element_ops_text(e: Element, id: nat)
    ensures
        no_adjacent_text_ops(element_ops(e, id)),
        element_ops(e, id)[0] is OpenElement,
        element_ops(e, id).last() is CloseElement,
    decreases e, 0int,
{
    let m = merge_spec(attrs_view(e.attrs@));
    let open = seq![
        DomOpView::OpenElement {
            namespace: match e.namespace {
                Some(ns) => Some(ns@),
                None => None,
            },
            tag: e.tag@,
        },
    ];
    let at = attrs_ops(m, id);
    let ch = seq_ops(e.children@, 0, false, id + callback_count(m));
    let close = seq![DomOpView::CloseElement];
    lemma_attrs_ops_no_text(m, id);
    lemma_seq_ops_text(e.children@, 0, false, id + callback_count(m));
    assert(no_adjacent_text_ops(at));
    lemma_concat_no_adjacent(open, at);
    assert((open + at).last() is OpenElement || (open + at).last() is Attr);
    lemma_concat_no_adjacent(open + at, ch);
    lemma_concat_no_adjacent(open + at + ch, close);
    assert(element_ops(e, id) == open + at + ch + close);
}

/// However a tree is materialized, no two text nodes are appended one right
/// after the other: a separator always stands between them, also after a
/// text node that was appended before (`prev`).
pub proof fn lemma_node_ops_text(n: Node, prev: bool, id: nat)
    ensures
        text_kept_apart(node_ops(n, prev, id), prev, ends_with_text(n, prev)),
    decreases n, 0int,
{
    match n {
        Node::Element(e) => {
            lemma_element_ops_text(e, id);
        },
        Node::Leaf(_) => {},
        Node::NodeList(cs) => {
            lemma_seq_ops_text(cs@, 0, prev, id);
        },
        Node::Fragment(cs) => {
            lemma_seq_ops_text(cs@, 0, prev, id);
        },
    }
}

/// `lemma_node_ops_text` over `cs[i..]`.
pub proof fn lemma_seq_ops_text(cs: Seq<Node>, i: int, prev: bool, id: nat)
    ensures
        text_kept_apart(seq_ops(cs, i, prev, id), prev, ends_with_text_seq(cs, i, prev)),
    decreases cs, cs.len() - i,
{
    if 0 <= i < cs.len() {
        let next_prev = ends_with_text(cs[i], prev);
        let a = node_ops(cs[i], prev, id);
        let b = seq_ops(cs, i + 1, next_prev, id + node_callbacks(cs[i]));
        lemma_node_ops_text(cs[i], prev, id);
        lemma_seq_ops_text(cs, i + 1, next_prev, id + node_callbacks(cs[i]));
        lemma_concat_no_adjacent(a, b);
        let o = a + b;
        assert(seq_ops(cs, i, prev, id) == o);
        if o.len() > 0 {
            if a.len() > 0 {
                assert(o[0] == a[0]);
            } else {
                assert(o[0] == b[0]);
            }
            if b.len() > 0 {
                assert(o.last() == b.last());
            } else {
                assert(o.last() == a.last());
            }
        } else {
            assert(a.len() == 0 && b.len() == 0);
        }
    }
}

/// How many elements are open after the operations `o`: one more for each
/// opened element, one fewer for each closed one.
pub open spec fn open_depth(o: Seq<DomOpView>) -> int
    decreases o.len(),
{
    if o.len() == 0 {
        0
    } else {
        open_depth(o.drop_last()) + if o.last() is OpenElement {
            1int
        } else if o.last() is CloseElement {
            -1int
        } else {
            0int
        }
    }
}

/// Whether the operations `o` close every element they open, never close
/// more than they opened, and operate on an element only while one is open.
pub open spec fn well_nested(o: Seq<DomOpView>) -> bool {
    &&& open_depth(o) == 0
    &&& forall|k: int|
        0 <= k < o.len() ==> open_depth(#[trigger] o.take(k)) >= 0 && (o[k] is CloseElement
            || o[k] is Attr ==> open_depth(o.take(k)) >= 1)
}

proof fn lemma_open_depth_concat(a: Seq<DomOpView>, b: Seq<DomOpView>)
    ensures
        open_depth(a + b) == open_depth(a) + open_depth(b),
    decreases b.len(),
{
    if b.len() == 0 {
        assert(a + b =~= a);
    } else {
        lemma_open_depth_concat(a, b.drop_last());
        assert((a + b).drop_last() =~= a + b.drop_last());
    }
}

proof fn lemma_flat_depth(a: Seq<DomOpView>)
    requires
        forall|k: int|
            0 <= k < a.len() ==> !(#[trigger] a[k] is OpenElement) && !(a[k] is CloseElement),
    ensures
        open_depth(a) == 0,
    decreases a.len(),
{
    if a.len() > 0 {
        lemma_flat_depth(a.drop_last());
    }
}

/// Prefixes of `pre + a` where `a` holds only operations on an element.
proof fn lemma_prefix_attrs(pre: Seq<DomOpView>, a: Seq<DomOpView>, k: int)
    requires
        forall|x: int| 0 <= x < a.len() ==> #[trigger] a[x] is Attr,
        0 <= k <= a.len(),
    ensures
        open_depth((pre + a).take(pre.len() + k)) == open_depth(pre),
{
    assert((pre + a).take(pre.len() + k) =~= pre + a.take(k));
    lemma_flat_depth(a.take(k));
    lemma_open_depth_concat(pre, a.take(k));
}

/// The operations that materialize an element are well nested.
pub proof fn lemma_element_ops_nested(e: Element, id: nat)
    ensures
        well_nested(element_ops(e, id)),
    decreases e, 0int,
{
    let m = merge_spec(attrs_view(e.attrs@));
    let open = seq![
        DomOpView::OpenElement {
            namespace: match e.namespace {
                Some(ns) => Some(ns@),
                None => None,
            },
            tag: e.tag@,
        },
    ];
    let at = attrs_ops(m, id);
    let ch = seq_ops(e.children@, 0, false, id + callback_count(m));
    let close = seq![DomOpView::CloseElement];
    let o = element_ops(e, id);
    assert(o == open + at + ch + close);
    lemma_attrs_ops_no_text(m, id);
    lemma_seq_ops_nested(e.children@, 0, false, id + callback_count(m));
    assert(open.drop_last() =~= Seq::<DomOpView>::empty());
    assert(open_depth(Seq::<DomOpView>::empty()) == 0);
    assert(open.last() is OpenElement);
    assert(open_depth(open) == 1);
    lemma_flat_depth(at);
    lemma_open_depth_concat(open, at);
    lemma_open_depth_concat(open + at, ch);
    lemma_open_depth_concat(open + at + ch, close);
    assert(close.drop_last() =~= Seq::<DomOpView>::empty());
    let oa = open + at;
    assert forall|k: int| 0 <= k < o.len() implies open_depth(#[trigger] o.take(k)) >= 0 && (
    o[k] is CloseElement || o[k] is Attr ==> open_depth(o.take(k)) >= 1) by {
        if k == 0 {
            assert(o.take(0) =~= Seq::<DomOpView>::empty());
            assert(o[0] == open[0]);
        } else if k <= oa.len() {
            lemma_prefix_attrs(open, at, k - 1);
            assert(o.take(k) =~= oa.take(k));
            if k < oa.len() {
                assert(o[k] == at[k - 1]);
            } else {
                assert(o[k] == (oa + ch + close)[k]);
            }
            if k == oa.len() && ch.len() > 0 {
                assert(o[k] == ch[0]);
                assert(ch.take(0) =~= Seq::<DomOpView>::empty());
            } else if k == oa.len() {
                assert(o[k] == close[0]);
            }
        } else if k < oa.len() + ch.len() {
            let j = k - oa.len();
            assert(o.take(k) =~= oa + ch.take(j));
            lemma_open_depth_concat(oa, ch.take(j));
            assert(o[k] == ch[j]);
        } else {
            assert(o.take(k) =~= oa + ch);
            assert(o[k] == close[0]);
        }
    }
}

/// The operations that materialize a node are well nested.
pub proof fn lemma_node_ops_nested(n: Node, prev: bool, id: nat)
    ensures
        well_nested(node_ops(n, prev, id)),
    decreases n, 0int,
{
    match n {
        Node::Element(e) => {
            lemma_element_ops_nested(e, id);
        },
        Node::Leaf(_) => {
            let o = node_ops(n, prev, id);
            assert forall|k: int| 0 <= k <= o.len() implies open_depth(#[trigger] o.take(k)) == 0 by {
                lemma_flat_depth(o.take(k));
            }
        },
        Node::NodeList(cs) => {
            lemma_seq_ops_nested(cs@, 0, prev, id);
        },
        Node::Fragment(cs) => {
            lemma_seq_ops_nested(cs@, 0, prev, id);
        },
    }
}

/// `lemma_node_ops_nested` over `cs[i..]`.
pub proof fn lemma_seq_ops_nested(cs: Seq<Node>, i: int, prev: bool, id: nat)
    ensures
        well_nested(seq_ops(cs, i, prev, id)),
    decreases cs, cs.len() - i,
{
    if 0 <= i < cs.len() {
        let next_prev = ends_with_text(cs[i], prev);
        let a = node_ops(cs[i], prev, id);
        let b = seq_ops(cs, i + 1, next_prev, id + node_callbacks(cs[i]));
        lemma_node_ops_nested(cs[i], prev, id);
        lemma_seq_ops_nested(cs, i + 1, next_prev, id + node_callbacks(cs[i]));
        let o = a + b;
        assert(seq_ops(cs, i, prev, id) == o);
        lemma_open_depth_concat(a, b);
        assert forall|k: int| 0 <= k < o.len() implies open_depth(#[trigger] o.take(k)) >= 0 && (
        o[k] is CloseElement || o[k] is Attr ==> open_depth(o.take(k)) >= 1) by {
            if k < a.len() {
                assert(o.take(k) =~= a.take(k));
                assert(o[k] == a[k]);
            } else {
                let j = k - a.len();
                assert(a.take(a.len() as int) =~= a);
                assert(o.take(k) =~= a + b.take(j));
                lemma_open_depth_concat(a, b.take(j));
                assert(o[k] == b[j]);
            }
        }
    } else {
        assert(seq_ops(cs, i, prev, id) == Seq::<DomOpView>::empty());
    }
}

} // verus!
