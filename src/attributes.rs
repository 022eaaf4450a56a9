//! Attribute merging: attributes that share a name are merged into one, and
//! the plain values of an attribute are merged into one string.
use crate::node::{attrs_view, Attribute, AttributeValue, AttributeView};
use vstd::prelude::*;
use vstd::string::*;

verus! {

/// The index of the first attribute named `name` in `m`, or -1.
pub open spec fn find_name(m: Seq<AttributeView>, name: Seq<char>) -> int
    decreases m.len(),
{
    if m.len() == 0 {
        -1
    } else if find_name(m.drop_last(), name) >= 0 {
        find_name(m.drop_last(), name)
    } else if m.last().name == name {
        m.len() - 1
    } else {
        -1
    }
}

/// Attributes merged by name: one attribute per name, in the order in which
/// each name first appears, holding the values of all attributes of that name
/// in encounter order. A new entry carries no namespace.
pub open spec fn merge_spec(s: Seq<AttributeView>) -> Seq<AttributeView>
    decreases s.len(),
{
    if s.len() == 0 {
        Seq::empty()
    } else {
        let m = merge_spec(s.drop_last());
        let a = s.last();
        let j = find_name(m, a.name);
        if j >= 0 {
            m.update(
                j,
                AttributeView { namespace: m[j].namespace, name: m[j].name, value: m[j].value + a.value },
            )
        } else {
            m.push(AttributeView { namespace: None, name: a.name, value: a.value })
        }
    }
}

/// Relies on mt_dom::merge_attributes_of_same_name: one attribute per name,
/// in order of first appearance, with the values of all attributes of that
/// name appended in encounter order; each new entry has no namespace.
#[verifier::external_body]
pub fn merge_attributes_of_same_name(attrs: &Vec<Attribute>) -> (r: Vec<Attribute>)
    ensures
        attrs_view(r@) == merge_spec(attrs_view(attrs@)),
{
    let owned: Vec<mt_dom::Attribute<String, String, AttributeValue>> = attrs.iter().map(|a| mt_dom::Attribute {
        namespace: a.namespace.clone(),
        name: a.name.clone(),
        value: a.value.clone(),
    }).collect();
    let refs: Vec<&mt_dom::Attribute<String, String, AttributeValue>> = owned.iter().collect();
    mt_dom::merge_attributes_of_same_name(&refs).into_iter().map(|a| Attribute {
        namespace: a.namespace,
        name: a.name,
        value: a.value,
    }).collect()
}

/// Whether `c` is an ASCII whitespace character.
pub open spec fn is_space(c: char) -> bool {
    c == ' ' || c == '\t' || c == '\n' || c == '\r' || c == '\x0c'
}

/// Whether `s` is empty or holds only whitespace.
pub open spec fn is_blank(s: Seq<char>) -> bool {
    forall|i: int| 0 <= i < s.len() ==> is_space(#[trigger] s[i])
}

/// Appends a piece of text to merged text: nothing for an empty piece; a
/// single space in between unless the merged text is empty or ends with `;`.
pub open spec fn join_piece(acc: Seq<char>, p: Seq<char>) -> Seq<char> {
    if p.len() == 0 {
        acc
    } else if acc.len() == 0 || acc.last() == ';' {
        acc + p
    } else {
        acc + " "@ + p
    }
}

/// Style declarations as text: `property:value;` for each, in order.
pub open spec fn style_text(d: Seq<(String, String)>) -> Seq<char>
    decreases d.len(),
{
    if d.len() == 0 {
        Seq::empty()
    } else {
        style_text(d.drop_last()) + d.last().0@ + ":"@ + d.last().1@ + ";"@
    }
}

/// The text that one value contributes to a merged value.
pub open spec fn value_piece(v: AttributeValue) -> Seq<char> {
    match v {
        AttributeValue::Simple(s) => s@,
        AttributeValue::FunctionCall(s) => s@,
        AttributeValue::Style(d) => style_text(d@),
        _ => Seq::empty(),
    }
}

/// The merged text of a sequence of values, in encounter order.
pub open spec fn merged_text(vals: Seq<AttributeValue>) -> Seq<char>
    decreases vals.len(),
{
    if vals.len() == 0 {
        Seq::empty()
    } else {
        join_piece(merged_text(vals.drop_last()), value_piece(vals.last()))
    }
}

/// Whether a value is a plain value: a scalar, a style list or no value.
pub open spec fn is_plain(v: AttributeValue) -> bool {
    v is Simple || v is Style || v is Empty
}

fn style_to_string(d: &Vec<(String, String)>) -> (r: String)
    ensures
        r@ == style_text(d@),
{
    let mut out = String::new();
    let mut i: usize = 0;
    while i < d.len()
        invariant
            i <= d.len(),
            out@ == style_text(d@.take(i as int)),
        decreases d.len() - i,
    {
        proof {
            reveal_strlit(":");
            reveal_strlit(";");
            assert(d@.take(i + 1).drop_last() =~= d@.take(i as int));
        }
        out.append(d[i].0.as_str());
        out.append(":");
        out.append(d[i].1.as_str());
        out.append(";");
        i = i + 1;
    }
    assert(d@.take(d.len() as int) =~= d@);
    out
}

fn value_to_string(v: &AttributeValue) -> (r: String)
    ensures
        r@ == value_piece(*v),
{
    match v {
        AttributeValue::Simple(s) => s.clone(),
        AttributeValue::FunctionCall(s) => s.clone(),
        AttributeValue::Style(d) => style_to_string(d),
        _ => String::new(),
    }
}

/// Whether `s` is empty or holds only whitespace.
pub fn is_blank_str(s: &str) -> (r: bool)
    ensures
        r == is_blank(s@),
{
    let n = s.unicode_len();
    let mut i: usize = 0;
    while i < n
        invariant
            n == s@.len(),
            i <= n,
            forall|j: int| 0 <= j < i ==> is_space(#[trigger] s@[j]),
        decreases n - i,
    {
        let c = s.get_char(i);
        if !(c == ' ' || c == '\t' || c == '\n' || c == '\r' || c == '\x0c') {
            return false;
        }
        i = i + 1;
    }
    true
}

/// Merges values into one string, in encounter order (see `merged_text`).
/// The result is `None` when the merged text is blank: an attribute with no
/// value is then to be removed rather than set to an empty string.
pub fn merge_plain_attributes_values(vals: &Vec<AttributeValue>) -> (r: Option<String>)
    ensures
        r is None <==> is_blank(merged_text(vals@)),
        r is Some ==> r->0@ == merged_text(vals@),
{
    let mut acc = String::new();
    let mut i: usize = 0;
    while i < vals.len()
        invariant
            i <= vals.len(),
            acc@ == merged_text(vals@.take(i as int)),
        decreases vals.len() - i,
    {
        proof {
            reveal_strlit(" ");
            assert(vals@.take(i + 1).drop_last() =~= vals@.take(i as int));
        }
        let p = value_to_string(&vals[i]);
        let pl = p.as_str().unicode_len();
        let al = acc.as_str().unicode_len();
        if pl == 0 {
        } else if al == 0 || acc.as_str().get_char(al - 1) == ';' {
            acc.append(p.as_str());
        } else {
            acc.append(" ");
            acc.append(p.as_str());
        }
        i = i + 1;
    }
    assert(vals@.take(vals.len() as int) =~= vals@);
    if is_blank_str(acc.as_str()) {
        None
    } else {
        Some(acc)
    }
}

/// The values of an attribute in three groups, each in encounter order: the
/// callback tokens, the plain values, and the function-call values.
pub fn partition_callbacks_from_plain_and_func_calls(vals: Vec<AttributeValue>) -> (r: (
    Vec<u64>,
    Vec<AttributeValue>,
    Vec<AttributeValue>,
))
    ensures
        r.0@ == vals@.filter(|v: AttributeValue| v is Callback).map_values(
            |v: AttributeValue| v->Callback_0,
        ),
        r.1@ == vals@.filter(|v: AttributeValue| is_plain(v)),
        r.2@ == vals@.filter(|v: AttributeValue| v is FunctionCall),
{
    let mut callbacks: Vec<u64> = Vec::new();
    let mut plain: Vec<AttributeValue> = Vec::new();
    let mut funcs: Vec<AttributeValue> = Vec::new();
    let ghost all = vals@;
    let mut rest = vals;
    let n = rest.len();
    let mut i: usize = 0;
    while i < n
        invariant
            n == all.len(),
            i <= n,
            rest@ == all.skip(i as int),
            callbacks@ == all.take(i as int).filter(|v: AttributeValue| v is Callback).map_values(
                |v: AttributeValue| v->Callback_0,
            ),
            plain@ == all.take(i as int).filter(|v: AttributeValue| is_plain(v)),
            funcs@ == all.take(i as int).filter(|v: AttributeValue| v is FunctionCall),
        decreases n - i,
    {
        let ghost pre = all.take(i as int);
        let v = rest.remove(0);
        proof {
            assert(all.take(i + 1) =~= pre.push(v));
            reveal(Seq::filter);
            assert(all.take(i + 1).drop_last() =~= pre);
            assert(rest@ =~= all.skip(i + 1));
        }
        match v {
            AttributeValue::Callback(t) => callbacks.push(t),
            AttributeValue::FunctionCall(_) => funcs.push(v),
            _ => plain.push(v),
        }
        i = i + 1;
    }
    assert(all.take(n as int) =~= all);
    (callbacks, plain, funcs)
}

/// Two attributes of one name merge into a single attribute of that name,
/// with no namespace, holding the values of the first and then of the second.
pub proof fn lemma_merge_same_name(a: AttributeView, b: AttributeView)
    requires
        a.name == b.name,
    ensures
        merge_spec(seq![a, b]) == seq![
            AttributeView { namespace: None, name: a.name, value: a.value + b.value },
        ],
{
    let s = seq![a, b];
    assert(s.drop_last() =~= seq![a]);
    assert(seq![a].drop_last() =~= Seq::<AttributeView>::empty());
    let e = Seq::<AttributeView>::empty();
    assert(merge_spec(e) == e);
    assert(find_name(e, a.name) == -1);
    assert(find_name(e, b.name) == -1);
    let m1 = merge_spec(seq![a]);
    assert(m1 =~= seq![AttributeView { namespace: None, name: a.name, value: a.value }]);
    assert(m1.drop_last() =~= Seq::<AttributeView>::empty());
    assert(find_name(m1, b.name) == 0);
    assert(merge_spec(s) =~= seq![
        AttributeView { namespace: None, name: a.name, value: a.value + b.value },
    ]);
}

/// Style text is empty or ends with `;`.
pub proof fn lemma_style_text_ends(d: Seq<(String, String)>)
    ensures
        style_text(d).len() == 0 || style_text(d).last() == ';',
    decreases d.len(),
{
    reveal_strlit(";");
    if d.len() > 0 {
        let t = style_text(d.drop_last()) + d.last().0@ + ":"@ + d.last().1@;
        assert(style_text(d) =~= t + ";"@);
    }
}

/// Two style lists merge into their declarations one after the other, in
/// encounter order, with nothing in between.
pub proof fn lemma_merge_two_styles(d1: Seq<(String, String)>, d2: Seq<(String, String)>, v1: AttributeValue, v2: AttributeValue)
    requires
        v1 is Style && v1->Style_0@ == d1,
        v2 is Style && v2->Style_0@ == d2,
    ensures
        merged_text(seq![v1, v2]) == style_text(d1) + style_text(d2),
{
    let s = seq![v1, v2];
    assert(s.drop_last() =~= seq![v1]);
    assert(seq![v1].drop_last() =~= Seq::<AttributeValue>::empty());
    assert(merged_text(Seq::<AttributeValue>::empty()) == Seq::<char>::empty());
    assert(merged_text(seq![v1]) =~= style_text(d1));
    lemma_style_text_ends(d1);
    if style_text(d2).len() == 0 {
        assert(style_text(d1) + style_text(d2) =~= style_text(d1));
    }
}

} // verus!
