use sauron_core::dom::{create_dom_node, plan_element_attribute, AttrOp, DomOp, IdGenerator};
use sauron_core::html::{fragment, html_element, text};
use sauron_core::node::{Attribute, AttributeValue};

fn attr(name: &str, value: Vec<AttributeValue>) -> Attribute {
    Attribute { namespace: None, name: name.to_string(), value }
}

fn simple(s: &str) -> AttributeValue {
    AttributeValue::Simple(s.to_string())
}

fn plan(a: Attribute) -> Vec<AttrOp> {
    let mut ids = IdGenerator::new();
    let mut ops = vec![];
    plan_element_attribute(a, &mut ids, &mut ops);
    ops.into_iter()
        .map(|o| match o {
            DomOp::Attr(a) => a,
            _ => panic!("not an attribute operation"),
        })
        .collect()
}

#[test]
fn identifiers_increase() {
    let mut ids = IdGenerator::new();
    assert_eq!(ids.create_unique_identifier(), 1);
    assert_eq!(ids.create_unique_identifier(), 2);
    assert_eq!(ids.last, 2);
}

#[test]
fn plain_attribute_is_set() {
    assert_eq!(
        plan(attr("class", vec![simple("a"), simple("b")])),
        vec![AttrOp::SetAttribute { name: "class".to_string(), value: "a b".to_string() }]
    );
}

#[test]
fn blank_attribute_is_removed() {
    assert_eq!(plan(attr("value", vec![simple("")])), vec![AttrOp::RemoveAttribute("value".to_string())]);
}

#[test]
fn value_and_checked_set_widget_state() {
    assert_eq!(plan(attr("value", vec![simple("x")])), vec![AttrOp::SetValue("x".to_string())]);
    assert_eq!(plan(attr("checked", vec![simple("true")])), vec![AttrOp::SetChecked]);
    assert_eq!(plan(attr("checked", vec![simple("")])), vec![AttrOp::RemoveAttribute("checked".to_string())]);
}

#[test]
fn namespaced_attribute_is_set_with_its_namespace() {
    let a = Attribute {
        namespace: Some("http://www.w3.org/1999/xlink".to_string()),
        name: "href".to_string(),
        value: vec![simple("a.js")],
    };
    assert_eq!(
        plan(a),
        vec![AttrOp::SetAttributeNs {
            namespace: "http://www.w3.org/1999/xlink".to_string(),
            name: "href".to_string(),
            value: "a.js".to_string(),
        }]
    );
}

#[test]
fn inner_html_and_callbacks() {
    assert_eq!(
        plan(attr("inner_html", vec![AttributeValue::FunctionCall("<b></b>".to_string())])),
        vec![AttrOp::RemoveAttribute("inner_html".to_string()), AttrOp::SetInnerHtml("<b></b>".to_string())]
    );
    assert_eq!(
        plan(attr("click", vec![AttributeValue::Callback(5), AttributeValue::Callback(6)])),
        vec![
            AttrOp::RemoveAttribute("click".to_string()),
            AttrOp::AddListener { id: 1, event: "click".to_string(), callback: 5 },
            AttrOp::AddListener { id: 2, event: "click".to_string(), callback: 6 },
        ]
    );
}

#[test]
fn element_is_built_in_order() {
    let n = html_element(
        None,
        "div",
        vec![attr("click", vec![AttributeValue::Callback(3)])],
        vec![html_element(None, "b", vec![attr("click", vec![AttributeValue::Callback(4)])], vec![], false), text("t")],
        false,
    );
    let mut ids = IdGenerator { last: 10 };
    let ops = create_dom_node(&n, &mut ids);
    assert_eq!(
        ops,
        vec![
            DomOp::OpenElement { namespace: None, tag: "div".to_string() },
            DomOp::Attr(AttrOp::RemoveAttribute("click".to_string())),
            DomOp::Attr(AttrOp::AddListener { id: 11, event: "click".to_string(), callback: 3 }),
            DomOp::OpenElement { namespace: None, tag: "b".to_string() },
            DomOp::Attr(AttrOp::RemoveAttribute("click".to_string())),
            DomOp::Attr(AttrOp::AddListener { id: 12, event: "click".to_string(), callback: 4 }),
            DomOp::CloseElement,
            DomOp::AppendText("t".to_string()),
            DomOp::CloseElement,
        ]
    );
    assert_eq!(ids.last, 12);
}

#[test]
fn texts_spliced_from_a_list_are_kept_apart() {
    let n = fragment(vec![text("a"), fragment(vec![text("b")])]);
    let ops = create_dom_node(&n, &mut IdGenerator::new());
    assert_eq!(
        ops,
        vec![DomOp::AppendText("a".to_string()), DomOp::AppendSeparator, DomOp::AppendText("b".to_string())]
    );
}
