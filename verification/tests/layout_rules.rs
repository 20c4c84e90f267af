use browser_engine::css::{Declarations, Rule, Selector, SimpleSelector, StyleSheet, Unit, Value};
use browser_engine::dom::{AttributeMap, ElementData, Node, NodeType};
use browser_engine::layout::{
    layout_tree, BoxType, Dimensions, EdgeSizes, LayoutBox, LayoutError, Rectangle,
};
use browser_engine::style::StyledNode;

fn node(id: &str, children: Vec<Node>) -> Node {
    let mut map = AttributeMap::new();
    map.insert("id".to_string(), id.to_string());
    Node::new(NodeType::Element(ElementData::new("div".to_string(), map)), children)
}

fn styles(id: &str, declarations: Vec<Declarations>) -> Rule {
    Rule::new(
        vec![Selector::new(
            vec![SimpleSelector::new(None, Some(id.to_string()), Vec::new())],
            Vec::new(),
        )],
        declarations,
    )
}

fn word(property: &str, text: &str) -> Declarations {
    Declarations::new(property.to_string(), Value::Other(text.to_string()))
}

fn px(property: &str, magnitude: i64) -> Declarations {
    Declarations::new(property.to_string(), Value::Length(magnitude, Unit::Px))
}

fn viewport(width: i64) -> Dimensions {
    let mut viewport = Dimensions::default();
    viewport.content.width = width;
    viewport.content.height = 600;
    viewport
}

fn lay_out_one(declarations: Vec<Declarations>, width: i64) -> Dimensions {
    let document = node("it", Vec::new());
    let sheet = StyleSheet::new(vec![styles("it", declarations)]);
    let styled = StyledNode::new(&document, &sheet);
    layout_tree(&styled, viewport(width)).unwrap().dimensions
}

#[test]
fn block_without_width_and_margins_fills_its_containing_block() {
    let d = lay_out_one(
        vec![
            word("display", "block"),
            px("border-left-width", 2),
            px("border-right-width", 3),
            px("padding-left", 5),
            px("padding-right", 7),
        ],
        300,
    );
    assert_eq!(d.content.width, 283);
    assert_eq!(
        d.content.width + d.border.left + d.border.right + d.padding.left + d.padding.right,
        300
    );
    assert_eq!(d.margin.left, 0);
    assert_eq!(d.margin.right, 0);
    assert_eq!(d.content.x, 7);
}

#[test]
fn block_wider_than_its_containing_block_gets_a_negative_right_margin() {
    let d = lay_out_one(vec![word("display", "block"), px("padding-left", 400)], 300);
    assert_eq!(d.content.width, 0);
    assert_eq!(d.margin.left, 0);
    assert_eq!(d.margin.right, -100);
}

#[test]
fn width_of_zero_counts_as_no_width() {
    let d = lay_out_one(vec![word("display", "block"), px("width", 0)], 300);
    assert_eq!(d.content.width, 300);
}

#[test]
fn unset_left_margin_takes_the_underflow() {
    let d = lay_out_one(
        vec![word("display", "block"), px("width", 100), word("margin-right", "20")],
        300,
    );
    assert_eq!(d.margin.left, 180);
    assert_eq!(d.margin.right, 20);
    assert_eq!(d.content.width, 100);
    assert_eq!(d.content.x, 180);
}

#[test]
fn unset_right_margin_takes_the_underflow() {
    let d = lay_out_one(
        vec![word("display", "block"), px("width", 100), word("margin-left", "20")],
        300,
    );
    assert_eq!(d.margin.left, 20);
    assert_eq!(d.margin.right, 180);
    assert_eq!(d.content.x, 20);
}

#[test]
fn two_unset_margins_share_the_underflow() {
    let d = lay_out_one(vec![word("display", "block"), px("width", 101)], 300);
    assert_eq!(d.margin.left, 99);
    assert_eq!(d.margin.right, 100);
    let d = lay_out_one(vec![word("display", "block"), px("width", 400)], 300);
    assert_eq!(d.margin.left, -50);
    assert_eq!(d.margin.right, -50);
    let d = lay_out_one(vec![word("display", "block"), px("width", 401)], 300);
    assert_eq!(d.margin.left, -51);
    assert_eq!(d.margin.right, -50);
}

#[test]
fn two_set_margins_give_the_underflow_to_the_right_one() {
    let d = lay_out_one(
        vec![
            word("display", "block"),
            px("width", 100),
            word("margin-left", "10"),
            word("margin-right", "20"),
        ],
        300,
    );
    assert_eq!(d.margin.left, 10);
    assert_eq!(d.margin.right, 190);
}

#[test]
fn margin_that_is_no_plain_number_counts_as_set_and_zero() {
    let d = lay_out_one(
        vec![word("display", "block"), px("width", 100), px("margin-left", 30)],
        300,
    );
    assert_eq!(d.margin.left, 0);
    assert_eq!(d.margin.right, 200);
    let d = lay_out_one(
        vec![word("display", "block"), px("width", 100), word("margin-right", "auto")],
        300,
    );
    assert_eq!(d.margin.left, 200);
    assert_eq!(d.margin.right, 0);
}

#[test]
fn inline_box_is_sized_like_a_block() {
    let document = node("it", Vec::new());
    let sheet = StyleSheet::new(vec![styles("it", vec![px("padding-left", 4)])]);
    let styled = StyledNode::new(&document, &sheet);
    let root = layout_tree(&styled, viewport(300)).unwrap();
    assert_eq!(root.box_type, BoxType::Inline);
    assert_eq!(root.dimensions.content.width, 296);
    assert_eq!(root.dimensions.content.x, 4);
}

#[test]
fn vertical_edges_move_the_content_down() {
    let d = lay_out_one(
        vec![
            word("display", "block"),
            px("margin-top", 1),
            px("border-top-width", 2),
            px("padding-top", 4),
            px("margin-bottom", 8),
            px("border-bottom-width", 16),
            px("padding-bottom", 32),
            px("height", 100),
        ],
        300,
    );
    assert_eq!(d.content.y, 7);
    assert_eq!(d.content.height, 100);
    assert_eq!(d.margin_box().y, 0);
    assert_eq!(d.margin_box().height, 163);
    assert_eq!(d.border_box().y, 1);
    assert_eq!(d.border_box().height, 154);
    assert_eq!(d.padding_box().y, 3);
    assert_eq!(d.padding_box().height, 136);
}

#[test]
fn viewport_height_does_not_count() {
    let document = node("it", Vec::new());
    let sheet = StyleSheet::new(vec![styles("it", vec![word("display", "block")])]);
    let styled = StyledNode::new(&document, &sheet);
    let mut view = viewport(300);
    view.content.height = 768;
    view.content.x = 10;
    view.content.y = 20;
    let root = layout_tree(&styled, view).unwrap();
    assert_eq!(root.dimensions.content.height, 0);
    assert_eq!(root.dimensions.content.x, 10);
    assert_eq!(root.dimensions.content.y, 20);
}

#[test]
fn boxes_lie_around_each_other_at_the_distance_of_their_edges() {
    let d = Dimensions {
        content: Rectangle { x: 10, y: 20, width: 100, height: 50 },
        padding: EdgeSizes { left: 1, right: 2, top: 3, bottom: 4 },
        border: EdgeSizes { left: 5, right: 6, top: 7, bottom: 8 },
        margin: EdgeSizes { left: 9, right: 10, top: 11, bottom: 12 },
        current: Rectangle { x: 77, y: 0, width: 0, height: 0 },
    };
    assert_eq!(d.padding_box(), Rectangle { x: 9, y: 17, width: 103, height: 57 });
    assert_eq!(d.border_box(), Rectangle { x: 4, y: 10, width: 114, height: 72 });
    assert_eq!(d.margin_box(), Rectangle { x: -5, y: -1, width: 133, height: 95 });
    assert_eq!(
        d.content.expanded(d.padding),
        Rectangle { x: 9, y: 17, width: 103, height: 57 }
    );
}

#[test]
fn boxes_saturate_at_the_end_of_the_range() {
    let mut d = Dimensions::default();
    d.content.x = i64::MIN;
    d.content.width = i64::MAX;
    d.padding.left = 1;
    d.padding.right = 1;
    assert_eq!(d.padding_box().x, i64::MIN);
    assert_eq!(d.padding_box().width, i64::MAX);
}

#[test]
fn inline_blocks_share_a_line_while_they_fit() {
    let document = node("parent", vec![node("one", Vec::new()), node("two", Vec::new())]);
    let child = |id: &str| {
        styles(
            id,
            vec![
                word("display", "inline-block"),
                px("width", 300),
                px("height", 40),
                word("margin-left", "5"),
            ],
        )
    };
    let sheet = StyleSheet::new(vec![
        styles("parent", vec![word("display", "block")]),
        child("one"),
        child("two"),
    ]);
    let styled = StyledNode::new(&document, &sheet);
    let root = layout_tree(&styled, viewport(1024)).unwrap();
    assert_eq!(root.children[0].dimensions.content.x, 5);
    assert_eq!(root.children[0].dimensions.margin_box().width, 305);
    assert_eq!(root.children[1].dimensions.content.x, 310);
    assert_eq!(root.children[1].dimensions.content.y, 0);
    assert_eq!(root.dimensions.content.height, 0);
}

#[test]
fn inline_block_exactly_at_the_end_of_the_line_does_not_wrap() {
    let document = node("parent", vec![node("one", Vec::new()), node("two", Vec::new())]);
    let child = |id: &str| {
        styles(id, vec![word("display", "inline-block"), px("width", 512), px("height", 40)])
    };
    let sheet = StyleSheet::new(vec![
        styles("parent", vec![word("display", "block")]),
        child("one"),
        child("two"),
    ]);
    let styled = StyledNode::new(&document, &sheet);
    let root = layout_tree(&styled, viewport(1024)).unwrap();
    assert_eq!(root.children[1].dimensions.content.x, 512);
    assert_eq!(root.children[1].dimensions.content.y, 0);
}

#[test]
fn block_after_inline_block_starts_below_the_line() {
    let document = node(
        "parent",
        vec![node("cell", Vec::new()), node("row", Vec::new()), node("last", Vec::new())],
    );
    let sheet = StyleSheet::new(vec![
        styles("parent", vec![word("display", "block")]),
        styles(
            "cell",
            vec![word("display", "inline-block"), px("width", 100), px("height", 30)],
        ),
        styles("row", vec![word("display", "block"), px("height", 20)]),
        styles("last", vec![word("display", "block"), px("height", 1)]),
    ]);
    let styled = StyledNode::new(&document, &sheet);
    let root = layout_tree(&styled, viewport(1024)).unwrap();
    assert_eq!(root.children[0].dimensions.content.y, 0);
    assert_eq!(root.children[1].dimensions.content.x, 0);
    assert_eq!(root.children[1].dimensions.content.y, 30);
    assert_eq!(root.children[2].dimensions.content.y, 50);
    assert_eq!(root.dimensions.content.height, 51);
}

#[test]
fn inline_box_is_laid_out_but_takes_no_room() {
    let document = node(
        "parent",
        vec![node("cell", Vec::new()), node("span", Vec::new()), node("row", Vec::new())],
    );
    let sheet = StyleSheet::new(vec![
        styles("parent", vec![word("display", "block")]),
        styles(
            "cell",
            vec![word("display", "inline-block"), px("width", 100), px("height", 30)],
        ),
        styles("span", vec![px("height", 12)]),
        styles("row", vec![word("display", "block"), px("height", 20)]),
    ]);
    let styled = StyledNode::new(&document, &sheet);
    let root = layout_tree(&styled, viewport(1024)).unwrap();
    assert_eq!(root.children[1].box_type, BoxType::Inline);
    assert_eq!(root.children[1].dimensions.content.width, 1024);
    assert_eq!(root.children[1].dimensions.content.height, 12);
    assert_eq!(root.children[1].dimensions.content.y, 0);
    // The child before the block is no inline block, so the line is not flushed.
    assert_eq!(root.children[2].dimensions.content.y, 0);
    assert_eq!(root.dimensions.content.height, 20);
}

#[test]
fn height_of_the_node_replaces_the_height_of_its_children() {
    let document = node("parent", vec![node("row", Vec::new())]);
    let sheet = StyleSheet::new(vec![
        styles("parent", vec![word("display", "block"), px("height", 500)]),
        styles("row", vec![word("display", "block"), px("height", 20)]),
    ]);
    let styled = StyledNode::new(&document, &sheet);
    let root = layout_tree(&styled, viewport(1024)).unwrap();
    assert_eq!(root.dimensions.content.height, 500);
    assert_eq!(root.children[0].dimensions.content.height, 20);
}

#[test]
fn height_in_any_unit_counts_by_its_magnitude() {
    let d = lay_out_one(
        vec![
            word("display", "block"),
            Declarations::new("height".to_string(), Value::Length(2, Unit::Em)),
        ],
        300,
    );
    assert_eq!(d.content.height, 2);
}

#[test]
fn inline_block_that_wraps_is_laid_out_twice() {
    let document = node(
        "parent",
        vec![node("small", Vec::new()), node("big", vec![node("inner", Vec::new())])],
    );
    let sheet = StyleSheet::new(vec![
        styles("parent", vec![word("display", "block")]),
        styles(
            "small",
            vec![word("display", "inline-block"), px("width", 600), px("height", 5)],
        ),
        styles("big", vec![word("display", "inline-block"), px("width", 600)]),
        styles("inner", vec![word("display", "block"), px("height", 10)]),
    ]);
    let styled = StyledNode::new(&document, &sheet);
    let root = layout_tree(&styled, viewport(1024)).unwrap();
    let big = &root.children[1];
    let inner = &big.children[0];
    assert_eq!(big.dimensions.content.x, 0);
    assert_eq!(big.dimensions.content.y, 10);
    // The second pass starts from the height that the first pass left.
    assert_eq!(big.dimensions.content.height, 20);
    assert_eq!(inner.dimensions.content.y, 20);
    assert_eq!(inner.dimensions.content.width, 600);
    assert_eq!(root.dimensions.content.height, 10);
}

#[test]
fn inline_block_takes_a_percentage_of_its_containing_block() {
    let document = node("it", Vec::new());
    let sheet = StyleSheet::new(vec![styles(
        "it",
        vec![
            word("display", "inline-block"),
            Declarations::new("width".to_string(), Value::Length(25, Unit::Pct)),
        ],
    )]);
    let styled = StyledNode::new(&document, &sheet);
    let root = layout_tree(&styled, viewport(1023)).unwrap();
    assert_eq!(root.box_type, BoxType::InlineBlock);
    assert_eq!(root.dimensions.content.width, 255);
    assert_eq!(root.dimensions.margin.left, 0);
}

#[test]
fn every_other_unit_of_a_width_is_refused() {
    for unit in [
        Unit::Em,
        Unit::Ex,
        Unit::Chr,
        Unit::Rem,
        Unit::Vh,
        Unit::Vw,
        Unit::Vmin,
        Unit::Vmax,
        Unit::Mm,
        Unit::Q,
        Unit::Cm,
        Unit::In,
        Unit::Pt,
        Unit::Pc,
    ] {
        for display in ["block", "inline", "inline-block"] {
            let document = node("it", Vec::new());
            let sheet = StyleSheet::new(vec![styles(
                "it",
                vec![
                    word("display", display),
                    Declarations::new("width".to_string(), Value::Length(1, unit)),
                ],
            )]);
            let styled = StyledNode::new(&document, &sheet);
            assert_eq!(
                layout_tree(&styled, viewport(100)).err(),
                Some(LayoutError::UnsupportedUnit)
            );
        }
    }
}

#[test]
fn hidden_root_is_built_and_left_alone() {
    let document = node("gone", vec![node("child", Vec::new())]);
    let sheet = StyleSheet::new(vec![
        styles("gone", vec![word("display", "none"), px("width", 50)]),
        styles(
            "child",
            vec![
                word("display", "block"),
                Declarations::new("width".to_string(), Value::Length(1, Unit::Em)),
            ],
        ),
    ]);
    let styled = StyledNode::new(&document, &sheet);
    let root = layout_tree(&styled, viewport(100)).unwrap();
    assert_eq!(root.box_type, BoxType::Anonymous);
    assert_eq!(root.dimensions, Dimensions::default());
    assert_eq!(root.children.len(), 1);
    assert_eq!(root.children[0].dimensions, Dimensions::default());
}

#[test]
fn new_box_is_empty() {
    let document = node("it", Vec::new());
    let sheet = StyleSheet::default();
    let styled = StyledNode::new(&document, &sheet);
    let built = LayoutBox::new(BoxType::InlineBlock, &styled);
    assert_eq!(built.box_type, BoxType::InlineBlock);
    assert_eq!(built.dimensions, Dimensions::default());
    assert!(built.children.is_empty());
    assert_eq!(Rectangle::default(), Rectangle { x: 0, y: 0, width: 0, height: 0 });
    assert_eq!(EdgeSizes::default(), EdgeSizes { left: 0, right: 0, top: 0, bottom: 0 });
}

#[test]
fn margin_of_zero_counts_as_set() {
    let d = lay_out_one(
        vec![word("display", "block"), px("width", 100), word("margin-left", "0")],
        300,
    );
    assert_eq!(d.margin.left, 0);
    assert_eq!(d.margin.right, 200);
    let d = lay_out_one(
        vec![
            word("display", "block"),
            px("width", 100),
            word("margin-left", "0"),
            word("margin-right", "0"),
        ],
        300,
    );
    assert_eq!(d.margin.left, 0);
    assert_eq!(d.margin.right, 200);
}

#[test]
fn margin_box_of_a_block_spans_its_containing_block() {
    let cases: Vec<Vec<Declarations>> = vec![
        vec![],
        vec![px("width", 120)],
        vec![px("width", 120), word("margin-left", "7")],
        vec![px("width", 120), word("margin-right", "7")],
        vec![px("width", 120), word("margin-left", "7"), word("margin-right", "9")],
        vec![px("width", 500), px("padding-left", 3), px("border-right-width", 4)],
        vec![px("padding-left", 500)],
        vec![word("margin-left", "-20"), px("padding-right", 11)],
    ];
    for mut declarations in cases {
        declarations.push(word("display", "block"));
        let d = lay_out_one(declarations, 333);
        assert_eq!(d.margin_box().width, 333);
        assert_eq!(
            d.margin.left
                + d.border.left
                + d.padding.left
                + d.content.width
                + d.padding.right
                + d.border.right
                + d.margin.right,
            333
        );
    }
}

#[test]
fn inline_block_takes_its_margins_as_plain_numbers() {
    let d = lay_out_one(
        vec![
            word("display", "inline-block"),
            px("width", 50),
            word("margin-left", "6"),
            px("margin-right", 9),
            px("margin-top", 2),
            px("padding-left", 1),
            px("border-left-width", 3),
        ],
        300,
    );
    assert_eq!(d.margin.left, 6);
    assert_eq!(d.margin.right, 0);
    assert_eq!(d.margin.top, 2);
    assert_eq!(d.content.x, 10);
    assert_eq!(d.content.y, 2);
    assert_eq!(d.content.width, 50);
    assert_eq!(d.margin_box().width, 60);
}

#[test]
fn inline_block_without_width_is_empty() {
    let d = lay_out_one(vec![word("display", "inline-block")], 300);
    assert_eq!(d.content.width, 0);
    assert_eq!(d.margin_box().width, 0);
}

#[test]
fn lengths_at_the_end_of_the_range_saturate() {
    let d = lay_out_one(
        vec![
            word("display", "block"),
            px("padding-left", i64::MAX),
            px("padding-right", i64::MAX),
            px("margin-top", i64::MIN),
            px("padding-top", i64::MIN),
        ],
        300,
    );
    assert_eq!(d.content.width, 0);
    assert_eq!(d.margin.right, 300 - i64::MAX);
    assert_eq!(d.content.x, i64::MAX);
    assert_eq!(d.content.y, i64::MIN);
    assert_eq!(d.padding_box().width, i64::MAX);
}
