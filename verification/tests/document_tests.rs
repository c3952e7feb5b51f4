use markup_dom::document::Document;
use markup_dom::node::Node;
use markup_dom::node::Tag as NodeTag;
use markup_dom::parser::parser::parse;
use markup_dom::tag::Tag;

#[test]
fn test_push_tag() {
    let mut document = Document::new();
    document.push_tag("div", -1);
    assert_eq!(document.tags.len(), 1);
    assert_eq!(document.tags[0], Tag::Div);
    assert_eq!(document.texts[0], "");
}

#[test]
fn test_push_text() {
    let mut document = Document::new();
    document.push_text("Hello Hppy!", -1);
    assert_eq!(document.tags.len(), 1);
    assert_eq!(document.tags[0], Tag::Text);
    assert_eq!(document.texts[0], "Hello Hppy!");
}

#[test]
fn test_create_a_tag_node() {
    let node = Node::tag("div");
    assert_eq!(node.tag, NodeTag::Div);
    assert_eq!(node.text_content, "")
}

#[test]
fn test_create_a_text_node() {
    let node = Node::text("Hello Hppy!");
    assert_eq!(node.tag, NodeTag::Text);
    assert_eq!(node.text_content, "Hello Hppy!")
}

#[test]
fn test_parse() {
    let document = parse("<div><p>Hello</p>Happy</div>");
    assert_eq!(document.tags.len(), 4);
    assert_eq!(document.tags[0], Tag::Div);
    assert_eq!(document.texts[0], "");
    assert_eq!(document.tags[1], Tag::P);
    assert_eq!(document.texts[1], "");
    assert_eq!(document.parents[1], 0);
    assert_eq!(document.tags[2], Tag::Text);
    assert_eq!(document.texts[2], "Hello");
    assert_eq!(document.parents[2], 1);
    assert_eq!(document.tags[3], Tag::Text);
    assert_eq!(document.texts[3], "Happy");
    assert_eq!(document.parents[3], 0);
}
