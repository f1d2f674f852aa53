use tidas_tools::xml::{XmlNode, XmlNodeError};

#[test]
fn documents_parse_into_local_names_attributes_children_and_text() {
    let document = br#"<?xml version="1.0"?><a:root xmlns:a="urn:a" a:id="1" id="2"><!-- note --><child>text and more</child><empty flag="x &lt; y"/><![CDATA[raw <b>]]></a:root>"#;
    let root = XmlNode::parse(document).unwrap();
    assert_eq!(root.name, "root");
    assert_eq!(root.attr("id"), Some("2"));
    assert_eq!(root.attr("xmlns"), None);
    assert_eq!(root.children.len(), 2);
    assert_eq!(root.children[0].name, "child");
    assert_eq!(root.children[0].text, "text and more");
    assert_eq!(root.children[1].name, "empty");
    assert_eq!(root.children[1].attr("flag"), Some("x < y"));
    assert_eq!(root.text, "raw <b>");
}

#[test]
fn malformed_documents_are_refused() {
    assert!(matches!(XmlNode::parse(b""), Err(XmlNodeError::MissingRoot)));
    assert!(matches!(XmlNode::parse(b"<a/><b/>"), Err(XmlNodeError::MultipleRoots)));
    assert!(XmlNode::parse(b"<a></b>").is_err());
    assert!(XmlNode::parse(b"<a>").is_err());
    assert!(matches!(XmlNode::parse(br#"<a x="1" x="2"/>"#), Err(XmlNodeError::Attribute(_))));
}
