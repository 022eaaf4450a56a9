use sauron_core::html::{
    comment, doctype, fragment, html_element, lazy_view_if, node_list, safe_html, text, view_if,
};
use sauron_core::node::{Element, Leaf, Node};

fn children_of(n: &Node) -> &Vec<Node> {
    match n {
        Node::Element(Element { children, .. }) => children,
        _ => panic!("not an element"),
    }
}

#[test]
fn leaf_constructors() {
    assert_eq!(text("hi"), Node::Leaf(Leaf::Text("hi".to_string())));
    assert_eq!(safe_html("<b>x</b>"), Node::Leaf(Leaf::SafeHtml("<b>x</b>".to_string())));
    assert_eq!(comment("note"), Node::Leaf(Leaf::Comment("note".to_string())));
    assert_eq!(doctype("html"), Node::Leaf(Leaf::DocType("html".to_string())));
}

#[test]
fn lists_keep_their_nodes() {
    assert_eq!(node_list(vec![text("a"), text("b")]), Node::NodeList(vec![text("a"), text("b")]));
    assert_eq!(fragment(vec![text("a")]), Node::Fragment(vec![text("a")]));
    assert_eq!(fragment(vec![]), Node::Fragment(vec![]));
}

#[test]
fn view_if_shows_or_hides() {
    let content = "hello world";
    let shown = view_if(!content.is_empty(), html_element(None, "p", vec![], vec![text(content)], false));
    assert_eq!(shown, html_element(None, "p", vec![], vec![text("hello world")], false));
    assert_eq!(view_if(false, text("x")), comment("hidden"));
}

#[test]
fn lazy_view_if_builds_only_when_shown() {
    assert_eq!(lazy_view_if(true, || text("built")), text("built"));
    assert_eq!(lazy_view_if(false, || panic!("must not be called")), comment("hidden"));
}

#[test]
fn html_element_keeps_its_parts() {
    let n = html_element(Some("http://www.w3.org/2000/svg"), "svg", vec![], vec![], true);
    assert_eq!(
        n,
        Node::Element(Element {
            namespace: Some("http://www.w3.org/2000/svg".to_string()),
            tag: "svg".to_string(),
            attrs: vec![],
            children: vec![],
            self_closing: true,
        })
    );
}

#[test]
fn adjacent_text_children_get_a_separator() {
    let n = html_element(None, "div", vec![], vec![text("a"), text("b"), text("c")], false);
    assert_eq!(
        children_of(&n),
        &vec![text("a"), comment("separator"), text("b"), comment("separator"), text("c")]
    );
}

#[test]
fn text_followed_by_an_element_gets_a_separator() {
    let span = html_element(None, "span", vec![], vec![], false);
    let n = html_element(
        None,
        "div",
        vec![],
        vec![text("a"), html_element(None, "span", vec![], vec![], false), text("b")],
        false,
    );
    assert_eq!(children_of(&n), &vec![text("a"), comment("separator"), span, text("b")]);
}

#[test]
fn no_children_stay_none() {
    let n = html_element(None, "div", vec![], vec![], false);
    assert!(children_of(&n).is_empty());
}
