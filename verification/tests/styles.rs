use browser_engine::css::{
    Color, Declarations, Rule, Selector, SimpleSelector, StyleSheet, Unit, Value,
};
use browser_engine::dom::{AttributeMap, ElementData, Node, NodeType};
use browser_engine::style::{selector_matches, Display, StyledNode};

fn element(tag: &str, attributes: &[(&str, &str)], children: Vec<Node>) -> Node {
    let mut map = AttributeMap::new();
    for (name, value) in attributes {
        map.insert(name.to_string(), value.to_string());
    }
    Node::new(NodeType::Element(ElementData::new(tag.to_string(), map)), children)
}

fn data(tag: &str, attributes: &[(&str, &str)]) -> ElementData {
    let mut map = AttributeMap::new();
    for (name, value) in attributes {
        map.insert(name.to_string(), value.to_string());
    }
    ElementData::new(tag.to_string(), map)
}

fn simple(tag: Option<&str>, id: Option<&str>, classes: &[&str]) -> SimpleSelector {
    SimpleSelector::new(
        tag.map(|t| t.to_string()),
        id.map(|i| i.to_string()),
        classes.iter().map(|c| c.to_string()).collect(),
    )
}

fn selector(simple_selectors: Vec<SimpleSelector>) -> Selector {
    Selector::new(simple_selectors, Vec::new())
}

fn keyword(property: &str, word: &str) -> Declarations {
    Declarations::new(property.to_string(), Value::Other(word.to_string()))
}

fn red() -> Value {
    Value::Color(Color::new(255, 0, 0, 255))
}

fn blue() -> Value {
    Value::Color(Color::new(0, 0, 255, 255))
}

fn rule(selectors: Vec<Selector>, declarations: Vec<Declarations>) -> Rule {
    Rule::new(selectors, declarations)
}

fn same_tree(a: &StyledNode, b: &StyledNode) -> bool {
    if a.styles.len() != b.styles.len() || a.children.len() != b.children.len() {
        return false;
    }
    for i in 0..a.styles.len() {
        if a.styles.name_at(i) != b.styles.name_at(i)
            || a.styles.value_at(i) != b.styles.value_at(i)
        {
            return false;
        }
    }
    a.children.iter().zip(b.children.iter()).all(|(x, y)| same_tree(x, y))
}

fn all_unstyled(node: &StyledNode) -> bool {
    node.styles.len() == 0 && node.children.iter().all(all_unstyled)
}

fn sample_document() -> Node {
    element(
        "div",
        &[("id", "a")],
        vec![
            Node::new(NodeType::Text("lead".to_string()), Vec::new()),
            element("p", &[("id", "b"), ("class", "x y")], Vec::new()),
            Node::new(NodeType::Comment("note".to_string()), Vec::new()),
            element(
                "ul",
                &[("id", "c")],
                vec![element("li", &[("id", "d"), ("class", "x")], Vec::new())],
            ),
        ],
    )
}

#[test]
fn empty_stylesheet_gives_no_node_a_property() {
    let document = sample_document();
    let sheet = StyleSheet::default();
    let styled = StyledNode::new(&document, &sheet);
    assert_eq!(styled.children.len(), 2);
    assert_eq!(styled.children[1].children.len(), 1);
    assert!(all_unstyled(&styled));
    assert!(styled.value("display").is_none());
}

#[test]
fn resolving_twice_gives_the_same_tree() {
    let document = sample_document();
    let sheet = StyleSheet::new(vec![
        rule(
            vec![selector(vec![simple(None, None, &["x"])])],
            vec![
                keyword("display", "block"),
                Declarations::new("color".to_string(), red()),
            ],
        ),
        rule(
            vec![selector(vec![simple(Some("li"), None, &[])])],
            vec![Declarations::new("color".to_string(), blue())],
        ),
    ]);
    let first = StyledNode::new(&document, &sheet);
    let second = StyledNode::new(&document, &sheet);
    assert!(same_tree(&first, &second));
    assert_eq!(first.children[0].value("color"), Some(&red()));
    assert_eq!(first.children[1].children[0].value("color"), Some(&blue()));
    assert_eq!(first.value("color"), None);
}

#[test]
fn last_matching_rule_wins_whatever_its_selector() {
    let document = element("p", &[("id", "only"), ("class", "c")], Vec::new());
    let sheet = StyleSheet::new(vec![
        rule(
            vec![selector(vec![simple(Some("p"), Some("only"), &["c"])])],
            vec![Declarations::new("color".to_string(), red())],
        ),
        rule(
            vec![selector(vec![simple(Some("q"), None, &[])])],
            vec![Declarations::new("color".to_string(), Value::Other("unused".to_string()))],
        ),
        rule(
            vec![selector(vec![simple(Some("p"), None, &[])])],
            vec![Declarations::new("color".to_string(), blue())],
        ),
    ]);
    let styled = StyledNode::new(&document, &sheet);
    assert_eq!(styled.value("color"), Some(&blue()));
    assert_eq!(styled.styles.len(), 1);
}

#[test]
fn later_declaration_of_a_rule_overwrites_an_earlier_one() {
    let document = element("p", &[], Vec::new());
    let sheet = StyleSheet::new(vec![rule(
        vec![selector(vec![simple(Some("p"), None, &[])])],
        vec![
            Declarations::new("color".to_string(), red()),
            keyword("display", "block"),
            Declarations::new("color".to_string(), blue()),
        ],
    )]);
    let styled = StyledNode::new(&document, &sheet);
    assert_eq!(styled.value("color"), Some(&blue()));
    assert_eq!(styled.styles.len(), 2);
    assert_eq!(styled.styles.name_at(0), "color");
    assert_eq!(styled.styles.name_at(1), "display");
}

#[test]
fn rule_applies_when_any_of_its_selectors_matches() {
    let document = element("p", &[("class", "b")], Vec::new());
    let sheet = StyleSheet::new(vec![rule(
        vec![
            selector(vec![simple(Some("h1"), None, &[])]),
            selector(vec![simple(None, None, &["b"])]),
            selector(vec![simple(Some("p"), None, &[])]),
        ],
        vec![keyword("display", "none")],
    )]);
    let styled = StyledNode::new(&document, &sheet);
    assert_eq!(styled.get_display(), Display::Hidden);
    assert_eq!(styled.styles.len(), 1);
}

#[test]
fn selector_matches_when_any_simple_selector_does() {
    let span = data("span", &[("class", "a b"), ("id", "s")]);
    let chain = Selector::new(
        vec![simple(Some("div"), None, &[]), simple(None, None, &["a"])],
        vec!['>'],
    );
    assert!(selector_matches(&span, &chain));
    let none = Selector::new(
        vec![simple(Some("div"), None, &[]), simple(None, None, &["c"])],
        vec![' '],
    );
    assert!(!selector_matches(&span, &none));
    assert!(!selector_matches(&span, &Selector::default()));
    assert!(selector_matches(&span, &selector(vec![SimpleSelector::default()])));
}

#[test]
fn simple_selector_needs_all_of_its_parts() {
    let span = data("span", &[("class", "a b"), ("id", "s")]);
    let all = selector(vec![simple(Some("span"), Some("s"), &["b", "a"])]);
    assert!(selector_matches(&span, &all));
    assert!(!selector_matches(&span, &selector(vec![simple(Some("Span"), None, &[])])));
    assert!(!selector_matches(&span, &selector(vec![simple(Some("span"), Some("t"), &["a"])])));
    let extra_class = selector(vec![simple(Some("span"), Some("s"), &["a", "c"])]);
    assert!(!selector_matches(&span, &extra_class));
    assert!(!selector_matches(&span, &selector(vec![simple(None, None, &["a b"])])));
    let plain = data("span", &[]);
    assert!(!selector_matches(&plain, &selector(vec![simple(None, Some("s"), &[])])));
    assert!(!selector_matches(&plain, &selector(vec![simple(None, None, &["a"])])));
    assert!(selector_matches(&plain, &selector(vec![simple(Some("span"), None, &[])])));
    let spaced = data("span", &[("class", "a  b")]);
    assert!(selector_matches(&spaced, &selector(vec![simple(None, None, &[""])])));
    assert!(!selector_matches(&span, &selector(vec![simple(None, None, &[""])])));
}

#[test]
fn display_follows_the_keyword() {
    let cases = [
        ("block", Display::Block),
        ("none", Display::Hidden),
        ("inline-block", Display::InlineBlock),
        ("inline", Display::Inline),
        ("flex", Display::Inline),
        ("Block", Display::Inline),
        ("", Display::Inline),
    ];
    for (word, expected) in cases {
        let document = element("p", &[], Vec::new());
        let sheet = StyleSheet::new(vec![rule(
            vec![selector(vec![simple(Some("p"), None, &[])])],
            vec![keyword("display", word)],
        )]);
        let styled = StyledNode::new(&document, &sheet);
        assert_eq!(styled.get_display(), expected);
    }
}

#[test]
fn display_defaults_to_inline() {
    let document = element("p", &[], Vec::new());
    let none = StyleSheet::default();
    assert_eq!(StyledNode::new(&document, &none).get_display(), Display::Inline);
    let length = StyleSheet::new(vec![rule(
        vec![selector(vec![simple(Some("p"), None, &[])])],
        vec![Declarations::new("display".to_string(), Value::Length(1, Unit::Px))],
    )]);
    assert_eq!(StyledNode::new(&document, &length).get_display(), Display::Inline);
}

#[test]
fn num_or_takes_the_magnitude_of_a_length() {
    let document = element("p", &[], Vec::new());
    let sheet = StyleSheet::new(vec![rule(
        vec![selector(vec![simple(Some("p"), None, &[])])],
        vec![
            Declarations::new("padding-left".to_string(), Value::Length(7, Unit::Em)),
            Declarations::new("padding-top".to_string(), Value::Length(-3, Unit::Px)),
            keyword("margin-top", "12"),
            Declarations::new("border-top-width".to_string(), red()),
        ],
    )]);
    let styled = StyledNode::new(&document, &sheet);
    assert_eq!(styled.num_or("padding-left", 0), 7);
    assert_eq!(styled.num_or("padding-top", 0), -3);
    assert_eq!(styled.num_or("margin-top", 5), 5);
    assert_eq!(styled.num_or("border-top-width", 9), 9);
    assert_eq!(styled.num_or("absent", 11), 11);
}

#[test]
fn text_and_comments_have_no_styled_node() {
    let document = element(
        "div",
        &[],
        vec![
            Node::new(
                NodeType::Text("t".to_string()),
                vec![element("b", &[], Vec::new())],
            ),
            element("i", &[], Vec::new()),
            Node::new(NodeType::Comment("c".to_string()), Vec::new()),
            element("u", &[], Vec::new()),
        ],
    );
    let sheet = StyleSheet::default();
    let styled = StyledNode::new(&document, &sheet);
    assert_eq!(styled.children.len(), 2);
    let first = &styled.children[0].node.node_type;
    let second = &styled.children[1].node.node_type;
    assert!(matches!(first, NodeType::Element(e) if e.tag_name == "i"));
    assert!(matches!(second, NodeType::Element(e) if e.tag_name == "u"));
}

#[test]
fn root_that_is_no_element_has_no_styles() {
    let document = Node::new(
        NodeType::Text("t".to_string()),
        vec![element("p", &[], Vec::new())],
    );
    let sheet = StyleSheet::new(vec![rule(
        vec![selector(vec![SimpleSelector::default()])],
        vec![keyword("display", "block")],
    )]);
    let styled = StyledNode::new(&document, &sheet);
    assert_eq!(styled.styles.len(), 0);
    assert_eq!(styled.children.len(), 1);
    assert_eq!(styled.children[0].get_display(), Display::Block);
}

#[test]
fn defaults_are_empty() {
    assert!(StyleSheet::default().rules.is_empty());
    let rule = Rule::default();
    assert!(rule.selectors.is_empty() && rule.declarations.is_empty());
    let selector = Selector::default();
    assert!(selector.simple.is_empty() && selector.combinators.is_empty());
    let simple = SimpleSelector::default();
    assert!(simple.tag_name.is_none() && simple.id.is_none() && simple.classes.is_empty());
    let declaration = Declarations::default();
    assert_eq!(declaration.property, "");
    assert_eq!(declaration.value, Value::Other(String::new()));
    assert_eq!(Color::default(), Color::new(255, 255, 255, 255));
    let copy = Value::Length(3, Unit::Pct).clone();
    assert_eq!(copy, Value::Length(3, Unit::Pct));
    assert_eq!(Value::Other("x".to_string()).clone(), Value::Other("x".to_string()));
}
