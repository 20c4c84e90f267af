use browser_engine::dom::{split_on_spaces, AttributeMap, ElementData, Node, NodeType};
use browser_engine::string_map::StringMap;

#[test]
fn split_cuts_at_every_single_space() {
    assert_eq!(split_on_spaces("a b"), vec!["a".to_string(), "b".to_string()]);
    assert_eq!(
        split_on_spaces("a  b"),
        vec!["a".to_string(), "".to_string(), "b".to_string()]
    );
    assert_eq!(split_on_spaces(""), vec!["".to_string()]);
    assert_eq!(split_on_spaces(" a"), vec!["".to_string(), "a".to_string()]);
    assert_eq!(split_on_spaces("a "), vec!["a".to_string(), "".to_string()]);
    assert_eq!(split_on_spaces("one"), vec!["one".to_string()]);
    assert_eq!(split_on_spaces("é ü\tx"), vec!["é".to_string(), "ü\tx".to_string()]);
}

#[test]
fn id_and_classes_come_from_the_attributes() {
    let mut attributes = AttributeMap::new();
    attributes.insert("class".to_string(), "a b".to_string());
    attributes.insert("id".to_string(), "s".to_string());
    let element = ElementData::new("span".to_string(), attributes);
    assert_eq!(element.get_id(), Some(&"s".to_string()));
    assert_eq!(element.get_classes(), vec!["a".to_string(), "b".to_string()]);
    assert_eq!(element.tag_name, "span");
}

#[test]
fn element_without_attributes_has_no_id_and_no_classes() {
    let element = ElementData::new("p".to_string(), AttributeMap::new());
    assert_eq!(element.get_id(), None);
    assert!(element.get_classes().is_empty());
}

#[test]
fn node_keeps_its_children_in_order() {
    let first = Node::new(NodeType::Text("one".to_string()), Vec::new());
    let second = Node::new(NodeType::Comment("two".to_string()), Vec::new());
    let parent = Node::new(
        NodeType::Element(ElementData::new("div".to_string(), AttributeMap::new())),
        vec![first, second],
    );
    assert_eq!(parent.children.len(), 2);
    assert!(matches!(&parent.children[0].node_type, NodeType::Text(text) if text == "one"));
    assert!(matches!(&parent.children[1].node_type, NodeType::Comment(text) if text == "two"));
}

#[test]
fn string_map_replaces_and_keeps_order() {
    let mut map: StringMap<i64> = StringMap::new();
    assert_eq!(map.len(), 0);
    assert_eq!(map.get("a"), None);
    map.insert("a".to_string(), 1);
    map.insert("b".to_string(), 2);
    map.insert("a".to_string(), 3);
    assert_eq!(map.len(), 2);
    assert_eq!(map.get("a"), Some(&3));
    assert_eq!(map.get("b"), Some(&2));
    assert_eq!(map.get("c"), None);
    assert_eq!(map.name_at(0), "a");
    assert_eq!(map.value_at(0), &3);
    assert_eq!(map.name_at(1), "b");
    assert_eq!(map.value_at(1), &2);
}
