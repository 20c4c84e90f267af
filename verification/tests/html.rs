use browser_engine::css::{Declarations, Rule, Selector, SimpleSelector, StyleSheet, Unit, Value};
use browser_engine::dom::{Node, NodeType};
use browser_engine::html_parser::{
    is_control, is_excluded_name, is_in_class, is_valid_attribute_name,
    is_valid_attribute_value, is_valid_tag_name, is_whitespace, Cursor, HtmlParser,
};
use browser_engine::layout::{layout_tree, Dimensions};
use browser_engine::markup::CharClass;
use browser_engine::style::StyledNode;
use browser_engine::text::chars_of;

fn parse(text: &str) -> Vec<Node> {
    HtmlParser::new(text).parse_nodes()
}

fn show(node: &Node) -> String {
    let mut out = String::new();
    match &node.node_type {
        NodeType::Text(text) => out.push_str(&format!("T({})", text)),
        NodeType::Comment(text) => out.push_str(&format!("C({})", text)),
        NodeType::Element(element) => {
            out.push_str(&element.tag_name);
            out.push('{');
            for i in 0..element.attributes.len() {
                if i > 0 {
                    out.push(',');
                }
                out.push_str(&format!(
                    "{}={}",
                    element.attributes.name_at(i),
                    element.attributes.value_at(i)
                ));
            }
            out.push('}');
        }
    }
    if !node.children.is_empty() {
        out.push('[');
        out.push_str(&show_all(&node.children));
        out.push(']');
    }
    out
}

fn show_all(nodes: &[Node]) -> String {
    nodes.iter().map(show).collect::<Vec<_>>().join(" ")
}

#[test]
fn white_space_is_what_std_calls_white_space() {
    for code in 0..=0x10FFFFu32 {
        if let Some(c) = char::from_u32(code) {
            assert_eq!(is_whitespace(c), c.is_whitespace(), "U+{:04X}", code);
        }
    }
}

#[test]
fn tag_name_characters_are_the_digits_of_radix_36() {
    for code in 0..=0x10FFFFu32 {
        if let Some(c) = char::from_u32(code) {
            assert_eq!(is_valid_tag_name(c), c.is_digit(36), "U+{:04X}", code);
        }
    }
}

#[test]
fn character_kinds() {
    assert!(is_control('\u{0000}') && is_control('\u{001F}') && is_control('\u{007F}'));
    assert!(is_control('\u{0080}') && is_control('\u{009F}'));
    assert!(!is_control(' ') && !is_control('~') && !is_control('\u{00A0}'));
    for c in [' ', '"', '\'', '>', '/', '='] {
        assert!(is_excluded_name(c));
        assert!(!is_valid_attribute_name(c));
    }
    assert!(!is_excluded_name('a') && is_valid_attribute_name('a'));
    assert!(is_valid_attribute_name('<') && is_valid_attribute_name('-'));
    assert!(!is_valid_attribute_name('\n'));
    for c in [' ', '"', '\'', '=', '<', '>', '`'] {
        assert!(!is_valid_attribute_value(c));
    }
    assert!(is_valid_attribute_value('/') && is_valid_attribute_value('\n'));
    assert!(is_in_class(CharClass::Word, 'x') && !is_in_class(CharClass::Word, '<'));
    assert!(!is_in_class(CharClass::Word, '\t'));
    assert!(is_in_class(CharClass::Comment, '>') && !is_in_class(CharClass::Comment, '-'));
    assert!(!is_in_class(CharClass::Comment, '<'));
    assert!(is_in_class(CharClass::ValueTail, '<') && !is_in_class(CharClass::ValueTail, '>'));
    assert!(is_in_class(CharClass::Except('q'), 'r') && !is_in_class(CharClass::Except('q'), 'q'));
    assert!(is_in_class(CharClass::Whitespace, '\u{3000}'));
    assert!(is_in_class(CharClass::TagName, 'Z') && !is_in_class(CharClass::TagName, '-'));
    assert!(is_in_class(CharClass::AttributeName, 'é'));
    assert!(is_in_class(CharClass::AttributeValue, 'é'));
}

#[test]
fn characters_of_a_text() {
    assert_eq!(chars_of(""), Vec::<char>::new());
    assert_eq!(chars_of("aé\u{1F600}"), vec!['a', 'é', '\u{1F600}']);
}

#[test]
fn cursor_reads_character_by_character() {
    let mut cursor = Cursor::new("ab  c");
    assert_eq!(cursor.offset(), 0);
    assert_eq!(cursor.peek(), Some('a'));
    assert!(cursor.peek_is('a') && !cursor.peek_is('b'));
    assert_eq!(cursor.next(), Some('a'));
    assert_eq!(cursor.consume_while(CharClass::Whitespace), "");
    assert_eq!(cursor.consume_while(CharClass::TagName), "b");
    assert_eq!(cursor.consume_while(CharClass::Whitespace), "  ");
    assert_eq!(cursor.offset(), 4);
    assert_eq!(cursor.consume_while(CharClass::Except('x')), "c");
    assert_eq!(cursor.peek(), None);
    assert_eq!(cursor.next(), None);
    assert_eq!(cursor.offset(), 5);
    assert_eq!(cursor.consume_while(CharClass::Word), "");
}

#[test]
fn nested_elements_with_text() {
    let nodes = parse("<div id=\"ab\"><p class=\"xy\">hi</p></div>");
    // A quoted value starts at the second character after the quote.
    assert_eq!(show_all(&nodes), "div{id=b}[p{class=y}[T(hi)]]");
}

#[test]
fn empty_input_has_no_nodes() {
    assert!(parse("").is_empty());
}

#[test]
fn white_space_alone_is_an_empty_text() {
    assert_eq!(show_all(&parse(" \n ")), "T()");
}

#[test]
fn runs_of_white_space_become_one_space() {
    assert_eq!(show_all(&parse("  hello \n\t world  <b>")), "T(hello world ) b{}");
    assert_eq!(show_all(&parse("a\u{00A0}b")), "T(a b)");
}

#[test]
fn white_space_after_the_last_tag_is_an_empty_text() {
    assert_eq!(show_all(&parse("<a></a>\n")), "a{} T()");
}

#[test]
fn closing_tag_of_another_name_makes_the_children_siblings() {
    assert_eq!(show_all(&parse("<a><b></a>")), "a{}[b{}]");
    assert_eq!(show_all(&parse("<a><b>text<i></i></a>")), "a{}[b{} T(text) i{}]");
}

#[test]
fn closing_tag_without_an_element_ends_the_nodes() {
    let mut parser = HtmlParser::new("x</ q nonsense>y<b>");
    assert_eq!(show_all(&parser.parse_nodes()), "T(x)");
    assert_eq!(show_all(&parser.parse_nodes()), "T(y) b{}");
    assert!(parser.parse_nodes().is_empty());
}

#[test]
fn unclosed_element_takes_all_that_follows() {
    assert_eq!(show_all(&parse("<a>one<b>two")), "a{}[T(one) b{}[T(two)]]");
}

#[test]
fn attributes_are_read_leniently() {
    assert_eq!(show_all(&parse("<a href=x.html b c='q'>")), "a{href=.html,b=,c=}");
    assert_eq!(show_all(&parse("<a HREF=xy Title = \"Hello\">")), "a{href=y,title=ello}");
    assert_eq!(show_all(&parse("<a k=v1 k=v22>")), "a{k=22}");
    assert_eq!(show_all(&parse("<a k='it''s'>")), "a{k=t}");
    assert_eq!(show_all(&parse("<a k='it' 's'>")), "a{k=t,=,s=}");
    assert_eq!(show_all(&parse("<a k=>")), "a{k=}");
    assert_eq!(show_all(&parse("<a k= \"abc")), "a{k=bc}");
    assert_eq!(show_all(&parse("<a k")), "a{k=}");
    assert_eq!(show_all(&parse("<a")), "a{}");
    assert_eq!(show_all(&parse("<")), "{}");
}

#[test]
fn character_that_starts_nothing_is_skipped() {
    assert_eq!(show_all(&parse("<br/>")), "br{=}");
    assert_eq!(show_all(&parse("<br/>x")), "br{=}[T(x)]");
    assert_eq!(show_all(&parse("<a \"b\">")), "a{=,b=}");
    assert_eq!(show_all(&parse("<a \u{0001}>")), "a{=}");
}

#[test]
fn tag_name_ends_at_the_first_other_character() {
    assert_eq!(show_all(&parse("<h1>")), "h1{}");
    assert_eq!(show_all(&parse("<my-tag>")), "my{-tag=}");
    assert_eq!(show_all(&parse("< p>")), "{p=}");
}

#[test]
fn comments_are_read_as_written() {
    assert_eq!(show_all(&parse("<!-- hi -->")), "C() T(hi -->)");
    assert_eq!(show_all(&parse("<!doctype html>")), "C() T(>)");
    assert_eq!(show_all(&parse("<!-x>")), "C() T(>)");
    assert_eq!(show_all(&parse("<!-->")), "C(-)");
    assert_eq!(show_all(&parse("<!--")), "C()");
    assert_eq!(show_all(&parse("<!")), "C()");
    assert_eq!(show_all(&parse("<!-->x-->y")), "C() T(-->y)");
    assert_eq!(show_all(&parse("<!-->>abc-->z")), "C(->abc) T(z)");
    assert_eq!(show_all(&parse("<!-->>a<b-c--d-->")), "C(->a<b-c--d)");
    assert_eq!(show_all(&parse("<!-->>a")), "C(->a)");
    assert_eq!(show_all(&parse("<!-->>a--")), "C(->a--)");
    assert_eq!(show_all(&parse("<!-->>a-")), "C(->a-)");
}

#[test]
fn comment_openers_inside_a_comment() {
    assert_eq!(show_all(&parse("<!-->>a<!--b>c")), "C() T(>c)");
    assert_eq!(show_all(&parse("<!-->>a<!-b-->c")), "C(->a<!-b) T(c)");
    assert_eq!(show_all(&parse("<!-->>a<!b-->c")), "C(->a<!b) T(c)");
    assert_eq!(show_all(&parse("<!-->>a<! b-->c")), "C(->ab) T(c)");
    assert_eq!(show_all(&parse("<!-->>a<! -b-->c")), "C(->a<! b) T(c)");
    assert_eq!(show_all(&parse("<!-->>a<! --b-->c")), "C(->a<! -b) T(c)");
    assert_eq!(show_all(&parse("<!-->>a<! ---b-->c")), "C(->a<! --b) T(c)");
    assert_eq!(show_all(&parse("<!-->>a<! --->c")), "C() T(c)");
    assert_eq!(show_all(&parse("<!-->>a<")), "C(->a<)");
}

#[test]
fn document_parsed_then_styled_and_laid_out() {
    let nodes = parse("<div id='_a'><p class='_x'>hi</p></div>");
    assert_eq!(show_all(&nodes), "div{id=a}[p{class=x}[T(hi)]]");
    let sheet = StyleSheet::new(vec![
        Rule::new(
            vec![Selector::new(
                vec![SimpleSelector::new(None, Some("a".to_string()), Vec::new())],
                Vec::new(),
            )],
            vec![
                Declarations::new("display".to_string(), Value::Other("block".to_string())),
                Declarations::new("width".to_string(), Value::Length(100, Unit::Px)),
            ],
        ),
        Rule::new(
            vec![Selector::new(
                vec![SimpleSelector::new(None, None, vec!["x".to_string()])],
                Vec::new(),
            )],
            vec![
                Declarations::new("display".to_string(), Value::Other("inline-block".to_string())),
                Declarations::new("width".to_string(), Value::Length(40, Unit::Px)),
                Declarations::new("height".to_string(), Value::Length(10, Unit::Px)),
            ],
        ),
    ]);
    let styled = StyledNode::new(&nodes[0], &sheet);
    let mut viewport = Dimensions::default();
    viewport.content.width = 1024;
    let root = layout_tree(&styled, viewport).unwrap();
    assert_eq!(root.dimensions.content.width, 100);
    assert_eq!(root.children[0].dimensions.content.width, 40);
    assert_eq!(root.children[0].dimensions.content.height, 10);
}
