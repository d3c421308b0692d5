use htmltree::chars::CharClass;
use htmltree::dom::{element, text, AttrMap, NodeType};

#[test]
fn text_node_holds_its_data_and_no_children() {
    let node = text(String::from("héllo <world>"));
    match node.node_type() {
        NodeType::Text(data) => assert_eq!(data, "héllo <world>"),
        NodeType::Element(_) => panic!("expected a text node"),
    }
    assert_eq!(node.children().len(), 0);
}

#[test]
fn empty_text_node() {
    let node = text(String::new());
    match node.node_type() {
        NodeType::Text(data) => assert_eq!(data, ""),
        NodeType::Element(_) => panic!("expected a text node"),
    }
}

#[test]
fn element_holds_what_it_was_given() {
    let mut attrs = AttrMap::new();
    attrs.insert(String::from("id"), String::from("main"));
    attrs.insert(String::from("class"), String::from("wide"));
    let children = vec![text(String::from("a")), element(String::from("br"), AttrMap::new(), Vec::new())];
    let node = element(String::from("div"), attrs, children);
    match node.node_type() {
        NodeType::Element(e) => {
            assert_eq!(e.tag_name(), "div");
            assert_eq!(e.attributes().len(), 2);
            assert_eq!(e.attributes().get("id"), Some(&String::from("main")));
            assert_eq!(e.attributes().get("class"), Some(&String::from("wide")));
        }
        NodeType::Text(_) => panic!("expected an element"),
    }
    assert_eq!(node.children().len(), 2);
    match node.children()[0].node_type() {
        NodeType::Text(data) => assert_eq!(data, "a"),
        NodeType::Element(_) => panic!("expected a text node"),
    }
    match node.children()[1].node_type() {
        NodeType::Element(e) => assert_eq!(e.tag_name(), "br"),
        NodeType::Text(_) => panic!("expected an element"),
    }
}

#[test]
fn element_is_not_validated() {
    let mut attrs = AttrMap::new();
    attrs.insert(String::from("not a name"), String::from("\"'"));
    let node = element(String::from("<odd tag>"), attrs, Vec::new());
    match node.node_type() {
        NodeType::Element(e) => {
            assert_eq!(e.tag_name(), "<odd tag>");
            assert_eq!(e.attributes().get("not a name"), Some(&String::from("\"'")));
        }
        NodeType::Text(_) => panic!("expected an element"),
    }
}

#[test]
fn attr_map_insert_overwrites() {
    let mut attrs = AttrMap::new();
    assert_eq!(attrs.len(), 0);
    assert_eq!(attrs.get("k"), None);
    attrs.insert(String::from("k"), String::from("1"));
    assert_eq!(attrs.len(), 1);
    assert_eq!(attrs.get("k"), Some(&String::from("1")));
    attrs.insert(String::from("k"), String::from("2"));
    assert_eq!(attrs.len(), 1);
    assert_eq!(attrs.get("k"), Some(&String::from("2")));
    attrs.insert(String::from("K"), String::from("3"));
    assert_eq!(attrs.len(), 2);
    assert_eq!(attrs.get("k"), Some(&String::from("2")));
    assert_eq!(attrs.get("K"), Some(&String::from("3")));
}

#[test]
fn whitespace_class_agrees_with_std() {
    let mut code: u32 = 0;
    while code <= 0x10ffff {
        if let Some(c) = char::from_u32(code) {
            assert_eq!(CharClass::Whitespace.contains(c), c.is_whitespace(), "U+{:04X}", code);
        }
        code += 1;
    }
}

#[test]
fn name_class_is_ascii_letters_and_digits() {
    let mut code: u32 = 0;
    while code <= 0x10ffff {
        if let Some(c) = char::from_u32(code) {
            assert_eq!(CharClass::Name.contains(c), c.is_ascii_alphanumeric(), "U+{:04X}", code);
        }
        code += 1;
    }
}

#[test]
fn except_class_holds_every_other_character() {
    let class = CharClass::Except('<');
    assert!(!class.contains('<'));
    assert!(class.contains('>'));
    assert!(class.contains(' '));
    assert!(class.contains('日'));
    assert!(!CharClass::Except('日').contains('日'));
}
