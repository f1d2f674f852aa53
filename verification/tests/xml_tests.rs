use tidas_tools::xml::{XmlNode, XmlNodeError, XmlTreeBuilder, local_name};

fn attrs(pairs: &[(&str, &str)]) -> Vec<(String, String)> {
    pairs
        .iter()
        .map(|(key, value)| ((*key).to_owned(), (*value).to_owned()))
        .collect()
}

fn build() -> XmlNode {
    // <es:ecoSpold><dataset number="1"><name> Steel </name><flow id="a"/></dataset>
    // <dataset number="2"><flow id="b"/></dataset></es:ecoSpold>
    let mut builder = XmlTreeBuilder::new();
    builder.start(XmlNode::element("es:ecoSpold", attrs(&[("xmlns:es", "urn:x")])));
    builder.start(XmlNode::element("dataset", attrs(&[("number", "1")])));
    builder.start(XmlNode::element("name", Vec::new()));
    builder.text(" Steel ");
    builder.end().unwrap();
    builder.empty(XmlNode::element("flow", attrs(&[("id", "a")]))).unwrap();
    builder.end().unwrap();
    builder.start(XmlNode::element("dataset", attrs(&[("number", "2")])));
    builder.empty(XmlNode::element("flow", attrs(&[("id", "b")]))).unwrap();
    builder.end().unwrap();
    builder.end().unwrap();
    builder.finish().unwrap()
}

#[test]
fn names_and_attribute_keys_are_local() {
    assert_eq!(local_name("a:b:c"), "c");
    assert_eq!(local_name("plain"), "plain");
    let node = XmlNode::element("x:item", attrs(&[("p:id", "1"), ("id", "2"), ("kind", "k")]));
    assert_eq!(node.name, "item");
    assert_eq!(node.attr("id"), Some("2"));
    assert_eq!(node.attr("kind"), Some("k"));
    assert_eq!(node.attr("p:id"), None);
}

#[test]
fn tree_queries_follow_document_order() {
    let root = build();
    assert_eq!(root.name, "ecoSpold");
    let first = root.child("dataset").unwrap();
    assert_eq!(first.attr("number"), Some("1"));
    assert_eq!(first.child_text("name"), Some("Steel".to_owned()));
    assert_eq!(first.child_text("flow"), None);
    let flows: Vec<&str> = root
        .descendants_named("flow")
        .remaining()
        .into_iter()
        .map(|node| node.attr("id").unwrap())
        .collect();
    assert_eq!(flows, vec!["a", "b"]);
    assert_eq!(root.first_descendant("flow").unwrap().attr("id"), Some("a"));
    assert!(root.first_descendant("missing").is_none());
    assert_eq!(root.descendants_named("ecoSpold").remaining().len(), 1);
}

#[test]
fn descendant_walk_gives_each_match_once_then_nothing() {
    let root = build();
    let mut walk = root.descendants_named("flow");
    assert_eq!(walk.next().unwrap().attr("id"), Some("a"));
    assert_eq!(walk.next().unwrap().attr("id"), Some("b"));
    assert!(walk.next().is_none());
    assert!(walk.next().is_none());
    assert!(root.descendants_named("nothing").next().is_none());
}

#[test]
fn blank_text_is_no_text() {
    let mut node = XmlNode::element("name", Vec::new());
    node.text = " \n\t ".to_owned();
    assert_eq!(node.trimmed_text(), None);
    node.text = "\u{a0}value\u{2003}".to_owned();
    assert_eq!(node.trimmed_text(), Some("value".to_owned()));
}

#[test]
fn malformed_trees_are_rejected() {
    let mut unexpected = XmlTreeBuilder::new();
    assert!(matches!(unexpected.end(), Err(XmlNodeError::UnexpectedEnd)));

    let mut unclosed = XmlTreeBuilder::new();
    unclosed.start(XmlNode::element("a", Vec::new()));
    assert!(matches!(unclosed.finish(), Err(XmlNodeError::UnclosedElement)));

    assert!(matches!(XmlTreeBuilder::new().finish(), Err(XmlNodeError::MissingRoot)));

    let mut two = XmlTreeBuilder::new();
    two.empty(XmlNode::element("a", Vec::new())).unwrap();
    assert!(matches!(
        two.empty(XmlNode::element("b", Vec::new())),
        Err(XmlNodeError::MultipleRoots)
    ));
}
