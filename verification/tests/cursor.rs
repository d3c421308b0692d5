use htmltree::chars::CharClass;
use htmltree::dom::{Node, NodeType};
use htmltree::grammar::ParseError;
use htmltree::html::Parser;

fn text_data(node: &Node) -> String {
    match node.node_type() {
        NodeType::Text(data) => data.clone(),
        NodeType::Element(_) => panic!("an element has no character data"),
    }
}

fn tag_name(node: &Node) -> String {
    match node.node_type() {
        NodeType::Element(e) => e.tag_name().clone(),
        NodeType::Text(_) => panic!("a text node has no tag"),
    }
}

#[test]
fn new_cursor_stands_at_the_start() {
    let p = Parser::new("abc");
    assert_eq!(p.offset(), 0);
    assert!(!p.eof());
    assert!(Parser::new("").eof());
}

#[test]
fn next_char_peeks_without_consuming() {
    let p = Parser::new("xy");
    assert_eq!(p.next_char(), Ok('x'));
    assert_eq!(p.next_char(), Ok('x'));
    assert_eq!(p.offset(), 0);
    assert_eq!(Parser::new("").next_char(), Err(ParseError::UnexpectedEnd));
}

#[test]
fn consume_char_steps_over_one_character_of_any_width() {
    let mut p = Parser::new("aé日🦀z");
    assert_eq!(p.consume_char(), Ok('a'));
    assert_eq!(p.consume_char(), Ok('é'));
    assert_eq!(p.consume_char(), Ok('日'));
    assert_eq!(p.consume_char(), Ok('🦀'));
    assert_eq!(p.offset(), 4);
    assert_eq!(p.consume_char(), Ok('z'));
    assert!(p.eof());
    assert_eq!(p.consume_char(), Err(ParseError::UnexpectedEnd));
    assert_eq!(p.offset(), 5);
}

#[test]
fn consume_char_on_a_final_multi_byte_character() {
    let mut p = Parser::new("日");
    assert_eq!(p.consume_char(), Ok('日'));
    assert!(p.eof());
    assert_eq!(p.offset(), 1);
}

#[test]
fn starts_with_tests_the_unread_input() {
    let mut p = Parser::new("a</b>");
    assert!(p.starts_with(""));
    assert!(p.starts_with("a"));
    assert!(p.starts_with("a</"));
    assert!(!p.starts_with("</"));
    assert!(!p.starts_with("a</b>x"));
    assert_eq!(p.consume_char(), Ok('a'));
    assert!(p.starts_with("</"));
    assert!(p.starts_with("</b>"));
    assert!(!p.starts_with("<b"));
    assert_eq!(p.offset(), 1);
}

#[test]
fn starts_with_compares_characters_not_bytes() {
    let p = Parser::new("é<");
    assert!(p.starts_with("é"));
    assert!(p.starts_with("é<"));
    assert!(!p.starts_with("e"));
}

#[test]
fn consume_expected_accepts_only_the_given_character() {
    let mut p = Parser::new("<a");
    assert_eq!(p.consume_expected('<'), Ok(()));
    assert_eq!(p.consume_expected('<'), Err(ParseError::UnexpectedChar));
    let mut p = Parser::new("");
    assert_eq!(p.consume_expected('<'), Err(ParseError::UnexpectedEnd));
}

#[test]
fn consume_while_takes_the_longest_run() {
    let mut p = Parser::new("abc123-def");
    assert_eq!(p.consume_while(CharClass::Name), "abc123");
    assert_eq!(p.offset(), 6);
    assert_eq!(p.consume_while(CharClass::Name), "");
    assert_eq!(p.offset(), 6);
    assert_eq!(p.consume_while(CharClass::Except('f')), "-de");
    assert_eq!(p.consume_while(CharClass::Except('!')), "f");
    assert!(p.eof());
    assert_eq!(p.consume_while(CharClass::Except('!')), "");
}

#[test]
fn consume_whitespace_skips_all_leading_whitespace() {
    let mut p = Parser::new(" \t\r\n\u{a0}\u{3000}x y");
    p.consume_whitespace();
    assert_eq!(p.offset(), 6);
    assert_eq!(p.next_char(), Ok('x'));
    p.consume_whitespace();
    assert_eq!(p.offset(), 6);
}

#[test]
fn tag_name_is_ascii_letters_and_digits() {
    let mut p = Parser::new("h1 class");
    assert_eq!(p.parse_tag_name(), "h1");
    assert_eq!(p.next_char(), Ok(' '));
    let mut p = Parser::new("data-x");
    assert_eq!(p.parse_tag_name(), "data");
    let mut p = Parser::new("émile");
    assert_eq!(p.parse_tag_name(), "");
    assert_eq!(p.offset(), 0);
    let mut p = Parser::new("Az09_");
    assert_eq!(p.parse_tag_name(), "Az09");
}

#[test]
fn text_run_ends_before_the_next_tag() {
    let mut p = Parser::new("one two <b>");
    let node = p.parse_text();
    assert_eq!(text_data(&node), "one two ");
    assert_eq!(node.children().len(), 0);
    assert_eq!(p.next_char(), Ok('<'));
    let node = p.parse_text();
    assert_eq!(text_data(&node), "");
    assert_eq!(p.offset(), 8);
}

#[test]
fn attr_value_in_either_quote() {
    let mut p = Parser::new("\"a b\"rest");
    assert_eq!(p.parse_attr_value(), Ok(String::from("a b")));
    assert_eq!(p.offset(), 5);
    let mut p = Parser::new("'a\"b'");
    assert_eq!(p.parse_attr_value(), Ok(String::from("a\"b")));
    assert!(p.eof());
    let mut p = Parser::new("''");
    assert_eq!(p.parse_attr_value(), Ok(String::new()));
}

#[test]
fn attr_value_failures() {
    assert_eq!(Parser::new("").parse_attr_value(), Err(ParseError::UnexpectedEnd));
    assert_eq!(Parser::new("x'").parse_attr_value(), Err(ParseError::UnexpectedChar));
    assert_eq!(Parser::new("'x").parse_attr_value(), Err(ParseError::UnterminatedValue));
    assert_eq!(Parser::new("'x\"").parse_attr_value(), Err(ParseError::UnterminatedValue));
}

#[test]
fn attr_is_name_equals_value() {
    let mut p = Parser::new("href='x' id");
    assert_eq!(p.parse_attr(), Ok((String::from("href"), String::from("x"))));
    assert_eq!(p.offset(), 8);
    assert_eq!(Parser::new("href").parse_attr(), Err(ParseError::UnexpectedEnd));
    assert_eq!(Parser::new("href 'x'").parse_attr(), Err(ParseError::UnexpectedChar));
    assert_eq!(Parser::new("href=x").parse_attr(), Err(ParseError::UnexpectedChar));
    assert_eq!(Parser::new("href='x").parse_attr(), Err(ParseError::UnterminatedValue));
}

#[test]
fn attributes_stop_before_the_closing_bracket() {
    let mut p = Parser::new("  a='1'  b=\"2\" a='3' >x");
    let attrs = p.parse_attributes().ok().unwrap();
    assert_eq!(attrs.len(), 2);
    assert_eq!(attrs.get("a"), Some(&String::from("3")));
    assert_eq!(attrs.get("b"), Some(&String::from("2")));
    assert_eq!(attrs.get("c"), None);
    assert_eq!(p.next_char(), Ok('>'));
    let mut p = Parser::new(">");
    assert_eq!(p.parse_attributes().ok().unwrap().len(), 0);
    assert_eq!(p.offset(), 0);
}

#[test]
fn attributes_failures() {
    assert_eq!(Parser::new("a='1' ").parse_attributes().err(), Some(ParseError::UnexpectedEnd));
    assert_eq!(Parser::new("a='1' /").parse_attributes().err(), Some(ParseError::UnexpectedChar));
    assert_eq!(Parser::new("a='1").parse_attributes().err(), Some(ParseError::UnterminatedValue));
}

#[test]
fn closing_tag_must_repeat_the_name() {
    let name = String::from("div");
    let mut p = Parser::new("</div>x");
    assert_eq!(p.parse_closing_tag(&name), Ok(()));
    assert_eq!(p.offset(), 6);
    assert_eq!(Parser::new("</span>").parse_closing_tag(&name), Err(ParseError::TagMismatch));
    assert_eq!(Parser::new("</di>").parse_closing_tag(&name), Err(ParseError::TagMismatch));
    assert_eq!(Parser::new("</divs>").parse_closing_tag(&name), Err(ParseError::TagMismatch));
    assert_eq!(Parser::new("</div").parse_closing_tag(&name), Err(ParseError::UnexpectedEnd));
    assert_eq!(Parser::new("</div x>").parse_closing_tag(&name), Err(ParseError::UnexpectedChar));
    assert_eq!(Parser::new("<div>").parse_closing_tag(&name), Err(ParseError::UnexpectedChar));
    assert_eq!(Parser::new("x").parse_closing_tag(&name), Err(ParseError::UnexpectedChar));
    assert_eq!(Parser::new("").parse_closing_tag(&name), Err(ParseError::UnexpectedEnd));
    assert_eq!(Parser::new("<").parse_closing_tag(&name), Err(ParseError::UnexpectedEnd));
}

#[test]
fn node_is_an_element_or_a_text_run() {
    let mut p = Parser::new("<i>x</i>tail");
    let node = p.parse_node().ok().unwrap();
    assert_eq!(tag_name(&node), "i");
    assert_eq!(p.offset(), 8);
    let node = p.parse_node().ok().unwrap();
    assert_eq!(text_data(&node), "tail");
    assert!(p.eof());
    assert_eq!(p.parse_node().err(), Some(ParseError::UnexpectedEnd));
}

#[test]
fn element_reads_through_its_closing_tag() {
    let mut p = Parser::new("<a k='v'><b></b> t </a> after");
    let node = p.parse_element().ok().unwrap();
    assert_eq!(tag_name(&node), "a");
    assert_eq!(node.children().len(), 2);
    assert_eq!(tag_name(&node.children()[0]), "b");
    assert_eq!(text_data(&node.children()[1]), "t ");
    assert_eq!(p.offset(), 23);
    assert_eq!(Parser::new("text").parse_element().err(), Some(ParseError::UnexpectedChar));
    assert_eq!(Parser::new("").parse_element().err(), Some(ParseError::UnexpectedEnd));
}

#[test]
fn nodes_stop_at_a_closing_tag_or_at_the_end() {
    let mut p = Parser::new(" <a></a> x <b></b> </c>");
    let nodes = p.parse_nodes().ok().unwrap();
    assert_eq!(nodes.len(), 3);
    assert_eq!(tag_name(&nodes[0]), "a");
    assert_eq!(text_data(&nodes[1]), "x ");
    assert_eq!(tag_name(&nodes[2]), "b");
    assert!(p.starts_with("</c>"));
    let mut p = Parser::new("   ");
    assert_eq!(p.parse_nodes().ok().unwrap().len(), 0);
    assert!(p.eof());
}

#[test]
fn deep_nesting() {
    let depth = 200;
    let mut source = String::new();
    for _ in 0..depth {
        source.push_str("<d>");
    }
    source.push_str("core");
    for _ in 0..depth {
        source.push_str("</d>");
    }
    let mut p = Parser::new(&source);
    let root = p.parse_node().ok().unwrap();
    assert!(p.eof());
    let mut node = &root;
    for _ in 0..depth {
        assert_eq!(tag_name(node), "d");
        assert_eq!(node.children().len(), 1);
        node = &node.children()[0];
    }
    assert_eq!(text_data(node), "core");
}
