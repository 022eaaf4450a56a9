use sauron_core::html::{comment, doctype, fragment, html_element, safe_html, text};
use sauron_core::node::{Attribute, AttributeValue};
use sauron_core::render::{render_to_string as render, Render};

fn attr(name: &str, value: AttributeValue) -> Attribute {
    Attribute { namespace: None, name: name.to_string(), value: vec![value] }
}

#[test]
fn lone_text_child_is_inline() {
    let n = html_element(None, "p", vec![], vec![text("hello")], false);
    assert_eq!(render(&n), "<p>hello</p>");
}

#[test]
fn element_children_go_on_indented_lines() {
    let n = html_element(
        None,
        "main",
        vec![],
        vec![
            html_element(None, "div", vec![], vec![], false),
            html_element(None, "section", vec![], vec![text("x")], false),
        ],
        false,
    );
    assert_eq!(render(&n), "<main>\n    <div></div>\n    <section>x</section>\n</main>");
}

#[test]
fn nesting_indents_one_level_per_element() {
    let inner = html_element(None, "ul", vec![], vec![html_element(None, "li", vec![], vec![], false)], false);
    let n = html_element(None, "div", vec![], vec![inner], false);
    assert_eq!(render(&n), "<div>\n    <ul>\n        <li></li>\n    </ul>\n</div>");
}

#[test]
fn adjacent_texts_render_with_a_separator() {
    let n = html_element(None, "p", vec![], vec![text("a"), text("b")], false);
    assert_eq!(render(&n), "<p>\n    a\n    <!--separator-->\n    b\n</p>");
}

#[test]
fn attributes_render_merged_plain_values() {
    let n = html_element(
        None,
        "div",
        vec![
            attr("style", AttributeValue::Style(vec![("color".to_string(), "red".to_string())])),
            attr("click", AttributeValue::Callback(1)),
            attr(
                "style",
                AttributeValue::Style(vec![
                    ("color".to_string(), "red".to_string()),
                    ("font-size".to_string(), "12px".to_string()),
                ]),
            ),
            attr("value", AttributeValue::Simple("".to_string())),
            attr("inner_html", AttributeValue::FunctionCall("<b></b>".to_string())),
        ],
        vec![],
        false,
    );
    assert_eq!(render(&n), "<div style=\"color:red;color:red;font-size:12px;\"></div>");
}

#[test]
fn leaves_and_lists_render() {
    assert_eq!(render(&comment("c")), "<!--c-->");
    assert_eq!(render(&doctype("html")), "<!doctype html>");
    assert_eq!(render(&safe_html("<b>x</b>")), "<b>x</b>");
    assert_eq!(render(&fragment(vec![text("a"), comment("b")])), "a<!--b-->");
}

#[test]
fn render_trait_appends_to_the_buffer() {
    let n = html_element(None, "p", vec![], vec![text("x")], false);
    let mut buf = String::from(">");
    n.render(&mut buf);
    assert_eq!(buf, "><p>x</p>");
    let mut indented = String::new();
    let list = html_element(None, "ul", vec![], vec![html_element(None, "li", vec![], vec![], false)], false);
    list.render_with_indent(&mut indented, 1);
    assert_eq!(indented, "<ul>\n        <li></li>\n    </ul>");
}

#[test]
fn render_trait_on_an_element() {
    let n = html_element(None, "b", vec![], vec![], false);
    if let sauron_core::node::Node::Element(e) = &n {
        let mut buf = String::new();
        e.render(&mut buf);
        assert_eq!(buf, "<b></b>");
    } else {
        panic!("not an element");
    }
}
