use sauron_core::attributes::{
    is_blank_str, merge_attributes_of_same_name, merge_plain_attributes_values,
    partition_callbacks_from_plain_and_func_calls,
};
use sauron_core::node::{Attribute, AttributeValue};

fn attr(name: &str, value: Vec<AttributeValue>) -> Attribute {
    Attribute { namespace: None, name: name.to_string(), value }
}

fn simple(s: &str) -> AttributeValue {
    AttributeValue::Simple(s.to_string())
}

fn style(decls: &[(&str, &str)]) -> AttributeValue {
    AttributeValue::Style(decls.iter().map(|(k, v)| (k.to_string(), v.to_string())).collect())
}

#[test]
fn same_name_attributes_merge_in_encounter_order() {
    let attrs = vec![
        attr("class", vec![simple("a")]),
        attr("id", vec![simple("x")]),
        attr("class", vec![simple("b")]),
    ];
    let merged = merge_attributes_of_same_name(&attrs);
    assert_eq!(
        merged,
        vec![attr("class", vec![simple("a"), simple("b")]), attr("id", vec![simple("x")])]
    );
}

#[test]
fn merging_drops_the_namespace() {
    let attrs = vec![Attribute {
        namespace: Some("ns".to_string()),
        name: "href".to_string(),
        value: vec![simple("a")],
    }];
    assert_eq!(merge_attributes_of_same_name(&attrs), vec![attr("href", vec![simple("a")])]);
}

#[test]
fn two_styles_merge_into_one_value() {
    let merged = merge_attributes_of_same_name(&vec![
        attr("style", vec![style(&[("color", "red")])]),
        attr("style", vec![style(&[("color", "red"), ("font-size", "12px")])]),
    ]);
    assert_eq!(merged.len(), 1);
    assert_eq!(
        merge_plain_attributes_values(&merged[0].value),
        Some("color:red;color:red;font-size:12px;".to_string())
    );
}

#[test]
fn simple_values_are_joined_by_a_space() {
    assert_eq!(
        merge_plain_attributes_values(&vec![simple("a"), simple("b")]),
        Some("a b".to_string())
    );
    assert_eq!(
        merge_plain_attributes_values(&vec![simple("a"), style(&[("color", "red")]), simple("b")]),
        Some("a color:red;b".to_string())
    );
}

#[test]
fn blank_merge_gives_none() {
    assert_eq!(merge_plain_attributes_values(&vec![]), None);
    assert_eq!(merge_plain_attributes_values(&vec![simple("")]), None);
    assert_eq!(merge_plain_attributes_values(&vec![simple("  "), AttributeValue::Empty]), None);
    assert!(is_blank_str(" \t\n"));
    assert!(!is_blank_str(" x "));
}

#[test]
fn values_are_partitioned_by_kind() {
    let (cbs, plain, funcs) = partition_callbacks_from_plain_and_func_calls(vec![
        AttributeValue::Callback(7),
        simple("a"),
        AttributeValue::FunctionCall("<b>x</b>".to_string()),
        AttributeValue::Callback(9),
        AttributeValue::Empty,
    ]);
    assert_eq!(cbs, vec![7, 9]);
    assert_eq!(plain, vec![simple("a"), AttributeValue::Empty]);
    assert_eq!(funcs, vec![AttributeValue::FunctionCall("<b>x</b>".to_string())]);
}
