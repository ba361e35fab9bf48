use sprites::{parse_document, remove_text_elements, serialize, DocumentError, XmlElement, XmlNode};

fn text(bytes: Vec<u8>) -> String {
    String::from_utf8(bytes).unwrap()
}

#[test]
fn writes_an_empty_element() {
    let e = XmlElement::new("svg");
    assert_eq!(
        text(serialize(&e).unwrap()),
        "<?xml version=\"1.0\" encoding=\"UTF-8\"?><svg />"
    );
}

#[test]
fn reads_names_attributes_and_children_in_document_order() {
    let doc = parse_document(b"<a z=\"1\" y=\"2\" x=\"3\"><b/>t<!--c--><d k=\"v\">u</d></a>").unwrap();
    assert_eq!(doc.name, "a");
    assert_eq!(
        doc.attributes,
        vec![
            (String::from("z"), String::from("1")),
            (String::from("y"), String::from("2")),
            (String::from("x"), String::from("3")),
        ]
    );
    assert_eq!(doc.children.len(), 4);
    assert!(matches!(&doc.children[0], XmlNode::Element(e) if e.name == "b"));
    assert!(matches!(&doc.children[1], XmlNode::Text(t) if t == "t"));
    assert!(matches!(&doc.children[2], XmlNode::Comment(t) if t == "c"));
    assert!(matches!(&doc.children[3], XmlNode::Element(e) if e.name == "d" && e.children.len() == 1));
    assert_eq!(doc.attribute("y").map(|s| s.as_str()), Some("2"));
    assert_eq!(doc.attribute("w"), None);
    assert_eq!(doc.child_element("d"), Some(3));
    assert_eq!(doc.child_element("e"), None);
    assert_eq!(doc.text_child(), Some(1));
}

#[test]
fn what_is_read_is_written_back() {
    let source = "<?xml version=\"1.0\" encoding=\"UTF-8\"?><a z=\"1\" y=\"2\"><b />t<d k=\"v\">u</d></a>";
    let doc = parse_document(source.as_bytes()).unwrap();
    assert_eq!(text(serialize(&doc).unwrap()), source);
    assert_eq!(text(serialize(&doc.deep_copy()).unwrap()), source);
}

#[test]
fn rejects_what_is_not_a_document() {
    assert_eq!(parse_document(b"").err(), Some(DocumentError::Unreadable));
    assert_eq!(parse_document(b"<a>").err(), Some(DocumentError::Unreadable));
    assert_eq!(parse_document(b"<a></b>").err(), Some(DocumentError::Unreadable));
    assert_eq!(parse_document(b"<!-- only a comment -->").err(), Some(DocumentError::Unreadable));
    assert_eq!(parse_document(b"plain").err(), Some(DocumentError::Unreadable));
}

#[test]
fn text_nodes_leave_at_every_depth() {
    let mut doc = parse_document(b"<g>label<path d=\"M0 0\"/><g>inner<!--kept--><circle/>more</g>tail</g>").unwrap();
    remove_text_elements(&mut doc);
    assert_eq!(
        text(serialize(&doc).unwrap()),
        "<?xml version=\"1.0\" encoding=\"UTF-8\"?><g><path d=\"M0 0\" /><g><!-- kept --><circle /></g></g>"
    );
}

#[test]
fn an_element_without_text_is_copied_as_it_is() {
    let source = "<?xml version=\"1.0\" encoding=\"UTF-8\"?><g id=\"#a\"><path d=\"M0 0\" /></g>";
    let doc = parse_document(source.as_bytes()).unwrap();
    assert_eq!(text(serialize(&doc.without_text()).unwrap()), source);
}

#[test]
fn a_tree_with_a_repeated_attribute_name_is_not_well_formed() {
    let mut doc = parse_document(b"<a x=\"1\" y=\"2\"><b><c k=\"v\"/></b>t</a>").unwrap();
    assert!(doc.is_well_formed());
    assert!(XmlElement::new("svg").is_well_formed());
    let XmlNode::Element(b) = &mut doc.children[0] else { panic!("no element") };
    let XmlNode::Element(c) = &mut b.children[0] else { panic!("no element") };
    c.attributes.push((String::from("j"), String::from("w")));
    assert!(doc.is_well_formed());
    let XmlNode::Element(b) = &mut doc.children[0] else { panic!("no element") };
    let XmlNode::Element(c) = &mut b.children[0] else { panic!("no element") };
    c.attributes.push((String::from("k"), String::from("w")));
    assert!(!doc.is_well_formed());
    let mut flat = XmlElement::new("a");
    flat.attributes.push((String::from("x"), String::from("1")));
    flat.attributes.push((String::from("y"), String::from("2")));
    flat.attributes.push((String::from("x"), String::from("1")));
    assert!(!flat.is_well_formed());
}

#[test]
fn namespace_bindings_survive_a_copy() {
    let source = "<svg xmlns=\"http://www.w3.org/2000/svg\" xmlns:xlink=\"http://www.w3.org/1999/xlink\">\
<defs><style>.a{fill:#fff}</style></defs><g id=\"#a\"><use xlink:href=\"#b\"/></g></svg>";
    let doc = parse_document(source.as_bytes()).unwrap();
    let written = text(serialize(&doc).unwrap());
    assert!(written.contains("xmlns=\"http://www.w3.org/2000/svg\""));
    assert!(written.contains("xmlns:xlink=\"http://www.w3.org/1999/xlink\""));
    assert_eq!(text(serialize(&doc.deep_copy()).unwrap()), written);
    assert_eq!(text(serialize(&doc.without_text()).unwrap()), written.replace("<style>.a{fill:#fff}</style>", "<style />"));
    let XmlNode::Element(group) = &doc.children[1] else { panic!("no group") };
    let alone = text(serialize(&group.deep_copy()).unwrap());
    assert!(alone.starts_with("<?xml version=\"1.0\" encoding=\"UTF-8\"?><g "));
    assert!(alone.contains("xmlns:xlink=\"http://www.w3.org/1999/xlink\""));
}
