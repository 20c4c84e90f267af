//! Boxes and their layout: one box for every styled node that is shown, sized
//! from the top of the tree down and stacked from its leaves up.

use vstd::prelude::*;
use vstd::string::StringExecFns;
use crate::box_model::{
    absolute_length, blank, block_position, block_width, box_type_of, emptied, explicit_height,
    flow, has_unsupported_width, inline_position, inline_width, layout_box, layout_of,
    lemma_flow_error_stays, lemma_layout_fails_on_unsupported_width, place, plain_number, plan_of,
    plans_of_children, vertical_edges, BoxPlan, Flow, Geometry,
};
use crate::css::{Unit, Value};
use crate::number::{fits, half, minus, parse_number, plus, sat_add, sat_percent, sat_sub};
use crate::style::{display_of, Display, StyledNode};
use crate::text::{decimal_text, push_decimal};

verus! {

/// A rectangle: the position of its top left corner and its size.
#[derive(Debug, Clone, Copy, PartialEq, Eq, Structural)]
pub struct Rectangle {
    pub x: i64,
    pub y: i64,
    pub width: i64,
    pub height: i64,
}

/// The thickness of one kind of edge on each of the four sides of a box.
#[derive(Debug, Clone, Copy, PartialEq, Eq, Structural)]
pub struct EdgeSizes {
    pub left: i64,
    pub right: i64,
    pub top: i64,
    pub bottom: i64,
}

/// The geometry of a box: its content rectangle and the padding, border and
/// margin around it. `current` is the cursor that layout moves along the line
/// of inline blocks while it places the children of the box; it is no part of
/// where the box is.
#[derive(Debug, Clone, Copy, PartialEq, Eq, Structural)]
pub struct Dimensions {
    pub content: Rectangle,
    pub padding: EdgeSizes,
    pub border: EdgeSizes,
    pub margin: EdgeSizes,
    pub current: Rectangle,
}

/// How a box is laid out. No box is built `Anonymous` for a node that is
/// shown; one that is built so is never laid out.
#[derive(Debug, Clone, Copy, PartialEq, Eq, Structural)]
pub enum BoxType {
    Block,
    Inline,
    InlineBlock,
    Anonymous,
}

/// Why a tree could not be laid out.
#[derive(Debug, Clone, Copy, PartialEq, Eq, Structural)]
pub enum LayoutError {
    /// A width is given in a unit other than pixels and percent.
    UnsupportedUnit,
}

/// The box of one styled node, with the boxes of its children that are shown.
#[derive(Debug)]
pub struct LayoutBox<'a> {
    pub dimensions: Dimensions,
    pub box_type: BoxType,
    pub styled_node: &'a StyledNode<'a>,
    pub children: Vec<LayoutBox<'a>>,
}

impl Rectangle {
    /// The rectangle at the origin without extent.
    pub open spec fn zero() -> Rectangle {
        Rectangle { x: 0, y: 0, width: 0, height: 0 }
    }

    /// The coordinate just right of this rectangle.
    pub open spec fn right(self) -> int {
        self.x + self.width
    }

    /// The coordinate just below this rectangle.
    pub open spec fn bottom(self) -> int {
        self.y + self.height
    }

    /// Whether `inner` lies inside this rectangle at the distances of `edge`
    /// from its four sides.
    pub open spec fn surrounds(self, inner: Rectangle, edge: EdgeSizes) -> bool {
        &&& inner.x - self.x == edge.left
        &&& inner.y - self.y == edge.top
        &&& self.right() - inner.right() == edge.right
        &&& self.bottom() - inner.bottom() == edge.bottom
    }

    /// Whether all of `inner` lies within this rectangle.
    pub open spec fn contains(self, inner: Rectangle) -> bool {
        &&& self.x <= inner.x
        &&& self.y <= inner.y
        &&& inner.right() <= self.right()
        &&& inner.bottom() <= self.bottom()
    }

    /// Whether this rectangle grows by `edge` without a coordinate or an
    /// extent that saturates.
    pub open spec fn grows_exactly(self, edge: EdgeSizes) -> bool {
        &&& fits(self.x - edge.left)
        &&& fits(self.y - edge.top)
        &&& fits(self.width + edge.left)
        &&& fits(self.width + edge.left + edge.right)
        &&& fits(self.height + edge.top)
        &&& fits(self.height + edge.top + edge.bottom)
    }

    /// This rectangle grown outwards by `edge` on each side.
    pub open spec fn spec_expanded(self, edge: EdgeSizes) -> Rectangle {
        Rectangle {
            x: minus(self.x, edge.left),
            y: minus(self.y, edge.top),
            width: plus(plus(self.width, edge.left), edge.right),
            height: plus(plus(self.height, edge.top), edge.bottom),
        }
    }

    /// This rectangle grown outwards by `edge` on each side.
    #[verifier::when_used_as_spec(spec_expanded)]
    pub fn expanded(self, edge: EdgeSizes) -> (grown: Rectangle)
        ensures
            grown == self.spec_expanded(edge),
    {
        Rectangle {
            x: sat_sub(self.x, edge.left),
            y: sat_sub(self.y, edge.top),
            width: sat_add(sat_add(self.width, edge.left), edge.right),
            height: sat_add(sat_add(self.height, edge.top), edge.bottom),
        }
    }
}

impl Default for Rectangle {
    fn default() -> (rectangle: Self)
        ensures
            rectangle == Rectangle::zero(),
    {
        Rectangle { x: 0, y: 0, width: 0, height: 0 }
    }
}

impl EdgeSizes {
    /// No edge on any side.
    pub open spec fn zero() -> EdgeSizes {
        EdgeSizes { left: 0, right: 0, top: 0, bottom: 0 }
    }

    /// Whether no side has a negative thickness.
    pub open spec fn is_non_negative(self) -> bool {
        0 <= self.left && 0 <= self.right && 0 <= self.top && 0 <= self.bottom
    }
}

impl Default for EdgeSizes {
    fn default() -> (edges: Self)
        ensures
            edges == EdgeSizes::zero(),
    {
        EdgeSizes { left: 0, right: 0, top: 0, bottom: 0 }
    }
}

impl Dimensions {
    /// An empty box at the origin.
    pub open spec fn zero() -> Dimensions {
        Dimensions {
            content: Rectangle::zero(),
            padding: EdgeSizes::zero(),
            border: EdgeSizes::zero(),
            margin: EdgeSizes::zero(),
            current: Rectangle::zero(),
        }
    }

    /// Whether none of the three boxes around the content saturates.
    pub open spec fn is_exact(&self) -> bool {
        &&& self.content.grows_exactly(self.padding)
        &&& self.spec_padding_box().grows_exactly(self.border)
        &&& self.spec_border_box().grows_exactly(self.margin)
    }

    /// The content rectangle and the padding around it.
    pub open spec fn spec_padding_box(&self) -> Rectangle {
        self.content.spec_expanded(self.padding)
    }

    /// The padding box and the border around it.
    pub open spec fn spec_border_box(&self) -> Rectangle {
        self.spec_padding_box().spec_expanded(self.border)
    }

    /// The border box and the margin around it.
    pub open spec fn spec_margin_box(&self) -> Rectangle {
        self.spec_border_box().spec_expanded(self.margin)
    }

    /// The content rectangle and the padding around it.
    #[verifier::when_used_as_spec(spec_padding_box)]
    pub fn padding_box(&self) -> (rectangle: Rectangle)
        ensures
            rectangle == self.spec_padding_box(),
    {
        self.content.expanded(self.padding)
    }

    /// The padding box and the border around it: what a background fills.
    #[verifier::when_used_as_spec(spec_border_box)]
    pub fn border_box(&self) -> (rectangle: Rectangle)
        ensures
            rectangle == self.spec_border_box(),
    {
        self.padding_box().expanded(self.border)
    }

    /// The border box and the margin around it: the room that the box takes
    /// among its siblings.
    #[verifier::when_used_as_spec(spec_margin_box)]
    pub fn margin_box(&self) -> (rectangle: Rectangle)
        ensures
            rectangle == self.spec_margin_box(),
    {
        self.border_box().expanded(self.margin)
    }
}

impl Default for Dimensions {
    fn default() -> (dimensions: Self)
        ensures
            dimensions == Dimensions::zero(),
    {
        Dimensions {
            content: Rectangle::default(),
            padding: EdgeSizes::default(),
            border: EdgeSizes::default(),
            margin: EdgeSizes::default(),
            current: Rectangle::default(),
        }
    }
}

/// The boxes of a box are built outwards from its content: the padding box
/// lies around the content at the distances of the padding, the border box
/// around the padding box at those of the border, and the margin box around
/// the border box at those of the margin. Where an edge is nowhere negative,
/// the outer of the two boxes contains the inner one.
///
/// This holds of all dimensions whose boxes do not saturate.
pub proof fn lemma_boxes_nest(dimensions: Dimensions)
    requires
        dimensions.is_exact(),
    ensures
        dimensions.spec_padding_box().surrounds(dimensions.content, dimensions.padding),
        dimensions.spec_border_box().surrounds(dimensions.spec_padding_box(), dimensions.border),
        dimensions.spec_margin_box().surrounds(dimensions.spec_border_box(), dimensions.margin),
        dimensions.padding.is_non_negative() ==> dimensions.spec_padding_box().contains(
            dimensions.content,
        ),
        dimensions.border.is_non_negative() ==> dimensions.spec_border_box().contains(
            dimensions.spec_padding_box(),
        ),
        dimensions.margin.is_non_negative() ==> dimensions.spec_margin_box().contains(
            dimensions.spec_border_box(),
        ),
{
}

/// The length in pixels that `node` has for `prop`, measured against
/// `boundary_box`.
fn get_absolute_num(node: &StyledNode, boundary_box: Dimensions, prop: &str) -> (length: Result<
    Option<i64>,
    LayoutError,
>)
    ensures
        length == absolute_length(node@.styles, prop@, boundary_box),
{
    match node.value(prop) {
        Some(value) => match value {
            Value::Length(magnitude, unit) => match unit {
                Unit::Px => Ok(Some(*magnitude)),
                Unit::Pct => Ok(Some(sat_percent(*magnitude, boundary_box.content.width))),
                _ => Err(LayoutError::UnsupportedUnit),
            },
            _ => Ok(None),
        },
        None => Ok(None),
    }
}

/// The pixels that `node` has for `name` as a plain decimal number.
fn get_plain_number(node: &StyledNode, name: &str) -> (number: i64)
    ensures
        number == plain_number(node@.styles, name@),
{
    match node.value(name) {
        Some(value) => match value {
            Value::Other(text) => match parse_number(text.as_str()) {
                Some(number) => number,
                None => 0,
            },
            _ => 0,
        },
        None => 0,
    }
}

/// Whether laying out the box `before` in `containing` comes to `result` and
/// to the box `after`: the same box with the geometry that layout gives it,
/// or an error where layout fails.
pub open spec fn lays_out(
    before: &LayoutBox,
    after: &LayoutBox,
    containing: Dimensions,
    result: Result<(), LayoutError>,
) -> bool {
    &&& after.plan() == before.plan()
    &&& after.box_type == before.box_type
    &&& after.styled_node == before.styled_node
    &&& match result {
        Ok(_) => layout_box(before.plan(), before.geometry(), containing) == Ok::<
            Geometry,
            LayoutError,
        >(after.geometry()),
        Err(error) => layout_box(before.plan(), before.geometry(), containing) == Err::<
            Geometry,
            LayoutError,
        >(error),
    }
}

impl<'a> LayoutBox<'a> {
    /// What layout takes from this box and never changes.
    pub open spec fn plan(&self) -> BoxPlan
        decreases self,
    {
        BoxPlan {
            box_type: self.box_type,
            styled: self.styled_node@,
            children: Seq::new(
                self.children.len() as nat,
                |i: int|
                    if 0 <= i < self.children.len() {
                        self.children[i].plan()
                    } else {
                        arbitrary()
                    },
            ),
        }
    }

    /// The properties of the node of this box.
    pub open spec fn styles(&self) -> Map<Seq<char>, Value> {
        self.styled_node@.styles
    }

    /// Where this box and the boxes below it are.
    pub open spec fn geometry(&self) -> Geometry
        decreases self,
    {
        Geometry {
            dimensions: self.dimensions,
            children: Seq::new(
                self.children.len() as nat,
                |i: int|
                    if 0 <= i < self.children.len() {
                        self.children[i].geometry()
                    } else {
                        arbitrary()
                    },
            ),
        }
    }

    /// This box with other dimensions.
    pub open spec fn resized(&self, dimensions: Dimensions) -> LayoutBox<'a> {
        LayoutBox { dimensions, ..*self }
    }

    /// A box for `styled_node` without children, empty at the origin.
    pub fn new(box_type: BoxType, styled_node: &'a StyledNode<'a>) -> (layout_box: LayoutBox<'a>)
        ensures
            layout_box.box_type == box_type,
            layout_box.styled_node == styled_node,
            layout_box.dimensions == Dimensions::zero(),
            layout_box.children@ == Seq::<LayoutBox<'a>>::empty(),
    {
        LayoutBox { box_type, styled_node, dimensions: Dimensions::default(), children: Vec::new() }
    }

    /// Lays out this box and all below it in `boundary_box`.
    fn layout(&mut self, boundary_box: Dimensions) -> (result: Result<(), LayoutError>)
        ensures
            lays_out(old(self), final(self), boundary_box, result),
        decreases old(self).plan(), 2nat,
    {
        match self.box_type {
            BoxType::Block => self.layout_block(boundary_box),
            BoxType::Inline => self.layout_block(boundary_box),
            BoxType::InlineBlock => self.layout_inline_block(boundary_box),
            BoxType::Anonymous => Ok(()),
        }
    }

    /// Lays out this inline block and all below it.
    fn layout_inline_block(&mut self, boundary_box: Dimensions) -> (result: Result<
        (),
        LayoutError,
    >)
        requires
            old(self).box_type == BoxType::InlineBlock,
        ensures
            lays_out(old(self), final(self), boundary_box, result),
        decreases old(self).plan(), 1nat,
    {
        match self.calculate_inline_width(boundary_box) {
            Err(error) => {
                return Err(error);
            },
            Ok(_) => {},
        }
        self.calculate_inline_position(boundary_box);
        assert(self.plan() == old(self).plan());
        assert(self.geometry().children == old(self).geometry().children);
        match self.layout_children() {
            Err(error) => {
                return Err(error);
            },
            Ok(_) => {},
        }
        self.calculate_height();
        Ok(())
    }

    /// Reads the width and the left and right edges of this inline block.
    fn calculate_inline_width(&mut self, boundary_box: Dimensions) -> (result: Result<
        (),
        LayoutError,
    >)
        ensures
            match result {
                Ok(_) => inline_width(old(self).styles(), old(self).dimensions, boundary_box)
                    == Ok::<Dimensions, LayoutError>(final(self).dimensions) && *final(self) == old(
                    self,
                ).resized(final(self).dimensions),
                Err(error) => inline_width(
                    old(self).styles(),
                    old(self).dimensions,
                    boundary_box,
                ) == Err::<Dimensions, LayoutError>(error) && *final(self) == *old(self),
            },
    {
        let node = self.styled_node;
        let width = match get_absolute_num(node, boundary_box, "width") {
            Err(error) => {
                return Err(error);
            },
            Ok(given) => match given {
                Some(width) => width,
                None => 0,
            },
        };
        self.dimensions.content.width = width;

        self.dimensions.margin.left = get_plain_number(node, "margin-left");
        self.dimensions.margin.right = get_plain_number(node, "margin-right");

        self.dimensions.padding.left = node.num_or("padding-left", 0);
        self.dimensions.padding.right = node.num_or("padding-right", 0);

        self.dimensions.border.left = node.num_or("border-left-width", 0);
        self.dimensions.border.right = node.num_or("border-right-width", 0);
        Ok(())
    }

    /// Reads the top and bottom margin, border and padding of the node.
    fn calculate_vertical_edges(&mut self)
        ensures
            final(self).dimensions == vertical_edges(old(self).styles(), old(self).dimensions),
            *final(self) == old(self).resized(final(self).dimensions),
    {
        let node = self.styled_node;
        self.dimensions.margin.top = node.num_or("margin-top", 0);
        self.dimensions.margin.bottom = node.num_or("margin-bottom", 0);

        self.dimensions.border.top = node.num_or("border-top-width", 0);
        self.dimensions.border.bottom = node.num_or("border-bottom-width", 0);

        self.dimensions.padding.top = node.num_or("padding-top", 0);
        self.dimensions.padding.bottom = node.num_or("padding-bottom", 0);
    }

    /// Places this inline block at the cursor of `boundary_box`.
    fn calculate_inline_position(&mut self, boundary_box: Dimensions)
        ensures
            final(self).dimensions == inline_position(
                old(self).styles(),
                old(self).dimensions,
                boundary_box,
            ),
            *final(self) == old(self).resized(final(self).dimensions),
    {
        self.calculate_vertical_edges();
        let dimension = self.dimensions;
        self.dimensions.content.x = sat_add(
            sat_add(
                sat_add(
                    sat_add(boundary_box.content.x, boundary_box.current.x),
                    dimension.margin.left,
                ),
                dimension.border.left,
            ),
            dimension.padding.left,
        );
        self.dimensions.content.y = sat_add(
            sat_add(
                sat_add(
                    sat_add(boundary_box.content.height, boundary_box.content.y),
                    dimension.margin.top,
                ),
                dimension.border.top,
            ),
            dimension.padding.top,
        );
    }

    /// Lays out this block and all below it.
    fn layout_block(&mut self, boundary_box: Dimensions) -> (result: Result<(), LayoutError>)
        requires
            old(self).box_type == BoxType::Block || old(self).box_type == BoxType::Inline,
        ensures
            lays_out(old(self), final(self), boundary_box, result),
        decreases old(self).plan(), 1nat,
    {
        match self.calculate_width(boundary_box) {
            Err(error) => {
                return Err(error);
            },
            Ok(_) => {},
        }
        self.calculate_position(boundary_box);
        assert(self.plan() == old(self).plan());
        assert(self.geometry().children == old(self).geometry().children);
        match self.layout_children() {
            Err(error) => {
                return Err(error);
            },
            Ok(_) => {},
        }
        self.calculate_height();
        Ok(())
    }

    /// Shares the width of `boundary_box` out between the content, the edges
    /// and the margins of this block.
    fn calculate_width(&mut self, boundary_box: Dimensions) -> (result: Result<(), LayoutError>)
        ensures
            match result {
                Ok(_) => block_width(old(self).styles(), old(self).dimensions, boundary_box)
                    == Ok::<Dimensions, LayoutError>(final(self).dimensions) && *final(self) == old(
                    self,
                ).resized(final(self).dimensions),
                Err(error) => block_width(
                    old(self).styles(),
                    old(self).dimensions,
                    boundary_box,
                ) == Err::<Dimensions, LayoutError>(error) && *final(self) == *old(self),
            },
    {
        let node = self.styled_node;
        let width = match get_absolute_num(node, boundary_box, "width") {
            Err(error) => {
                return Err(error);
            },
            Ok(given) => match given {
                Some(width) => width,
                None => 0,
            },
        };
        let margin_left_set = node.value("margin-left").is_some();
        let margin_right_set = node.value("margin-right").is_some();
        let margin_left_num = get_plain_number(node, "margin-left");
        let margin_right_num = get_plain_number(node, "margin-right");

        let border_left = node.num_or("border-left-width", 0);
        let border_right = node.num_or("border-right-width", 0);
        let padding_left = node.num_or("padding-left", 0);
        let padding_right = node.num_or("padding-right", 0);
        self.dimensions.border.left = border_left;
        self.dimensions.border.right = border_right;
        self.dimensions.padding.left = padding_left;
        self.dimensions.padding.right = padding_right;

        let total_size = sat_add(
            sat_add(
                sat_add(
                    sat_add(
                        sat_add(sat_add(width, margin_left_num), margin_right_num),
                        border_left,
                    ),
                    border_right,
                ),
                padding_left,
            ),
            padding_right,
        );
        let underflow = sat_sub(boundary_box.content.width, total_size);

        if width == 0 {
            if underflow >= 0 {
                self.dimensions.content.width = underflow;
                self.dimensions.margin.right = margin_right_num;
            } else {
                self.dimensions.margin.right = sat_add(margin_right_num, underflow);
                self.dimensions.content.width = width;
            }
            self.dimensions.margin.left = margin_left_num;
        } else if !margin_left_set && margin_right_set {
            self.dimensions.margin.left = underflow;
            self.dimensions.margin.right = margin_right_num;
            self.dimensions.content.width = width;
        } else if margin_left_set && !margin_right_set {
            self.dimensions.margin.right = underflow;
            self.dimensions.margin.left = margin_left_num;
            self.dimensions.content.width = width;
        } else if !margin_left_set && !margin_right_set {
            let left = half(underflow);
            self.dimensions.margin.left = left;
            self.dimensions.margin.right = underflow - left;
            self.dimensions.content.width = width;
        } else {
            self.dimensions.margin.right = sat_add(margin_right_num, underflow);
            self.dimensions.margin.left = margin_left_num;
            self.dimensions.content.width = width;
        }
        Ok(())
    }

    /// Places this block below what `boundary_box` holds so far.
    fn calculate_position(&mut self, boundary_box: Dimensions)
        ensures
            final(self).dimensions == block_position(
                old(self).styles(),
                old(self).dimensions,
                boundary_box,
            ),
            *final(self) == old(self).resized(final(self).dimensions),
    {
        self.calculate_vertical_edges();
        let dimension = self.dimensions;
        self.dimensions.content.x = sat_add(
            sat_add(sat_add(boundary_box.content.x, dimension.margin.left), dimension.border.left),
            dimension.padding.left,
        );
        self.dimensions.content.y = sat_add(
            sat_add(
                sat_add(
                    sat_add(boundary_box.content.height, boundary_box.content.y),
                    dimension.margin.top,
                ),
                dimension.border.top,
            ),
            dimension.padding.top,
        );
    }

    /// Gives this box the height that its node sets, if it sets one.
    fn calculate_height(&mut self)
        ensures
            final(self).dimensions == explicit_height(
                old(self).styles(),
                old(self).dimensions,
            ),
            *final(self) == old(self).resized(final(self).dimensions),
    {
        match self.styled_node.value("height") {
            Some(height) => match height {
                Value::Length(number, _) => {
                    self.dimensions.content.height = *number;
                },
                _ => {},
            },
            None => {},
        }
    }

    /// Places this box, as the next child of its parent, in the flow that
    /// `dimension`, `max_child_height` and `previous_box_type` describe, and
    /// gives the flow after it.
    fn place_child(
        &mut self,
        dimension: Dimensions,
        max_child_height: i64,
        previous_box_type: BoxType,
    ) -> (result: Result<(Dimensions, i64, BoxType), LayoutError>)
        ensures
            final(self).plan() == old(self).plan(),
            match result {
                Ok((dimensions, line_height, previous)) => place(
                    old(self).plan(),
                    old(self).geometry(),
                    Flow {
                        dimensions: dimension,
                        line_height: max_child_height,
                        previous: previous_box_type,
                    },
                ) == Ok::<(Flow, Geometry), LayoutError>(
                    (Flow { dimensions, line_height, previous }, final(self).geometry()),
                ),
                Err(error) => place(
                    old(self).plan(),
                    old(self).geometry(),
                    Flow {
                        dimensions: dimension,
                        line_height: max_child_height,
                        previous: previous_box_type,
                    },
                ) == Err::<(Flow, Geometry), LayoutError>(error),
            },
        decreases old(self).plan(), 3nat,
    {
        let mut dimension = dimension;
        let mut max_child_height = max_child_height;
        let child_type = self.box_type;
        if child_type == BoxType::Anonymous {
            return Ok((dimension, max_child_height, previous_box_type));
        }
        if previous_box_type == BoxType::InlineBlock && child_type == BoxType::Block {
            dimension.content.height = sat_add(dimension.content.height, max_child_height);
            dimension.current.x = 0;
            max_child_height = 0;
        }
        match self.layout(dimension) {
            Err(error) => {
                return Err(error);
            },
            Ok(_) => {},
        }
        let new_height = self.dimensions.margin_box().height;
        if new_height > max_child_height {
            max_child_height = new_height;
        }
        match child_type {
            BoxType::Block => {
                dimension.content.height = sat_add(dimension.content.height, new_height);
            },
            BoxType::InlineBlock => {
                dimension.current.x = sat_add(
                    dimension.current.x,
                    self.dimensions.margin_box().width,
                );
                if dimension.current.x > dimension.content.width {
                    dimension.content.height = sat_add(dimension.content.height, max_child_height);
                    dimension.current.x = 0;
                    max_child_height = 0;
                    match self.layout(dimension) {
                        Err(error) => {
                            return Err(error);
                        },
                        Ok(_) => {},
                    }
                    dimension.current.x = sat_add(
                        dimension.current.x,
                        self.dimensions.margin_box().width,
                    );
                }
            },
            _ => {},
        }
        Ok((dimension, max_child_height, child_type))
    }

    /// Places the children of this box one after the other.
    fn layout_children(&mut self) -> (result: Result<(), LayoutError>)
        ensures
            final(self).plan() == old(self).plan(),
            final(self).box_type == old(self).box_type,
            final(self).styled_node == old(self).styled_node,
            match result {
                Ok(_) => flow(
                    old(self).plan(),
                    old(self).geometry().children,
                    old(self).dimensions,
                    old(self).plan().children.len(),
                ) matches Ok((done, laid)) && done.dimensions == final(self).dimensions && laid
                    == final(self).geometry().children,
                Err(error) => flow(
                    old(self).plan(),
                    old(self).geometry().children,
                    old(self).dimensions,
                    old(self).plan().children.len(),
                ) == Err::<(Flow, Seq<Geometry>), LayoutError>(error),
            },
        decreases old(self).plan(), 0nat,
    {
        let ghost plan = self.plan();
        let ghost priors = self.geometry().children;
        let ghost start = self.dimensions;
        let ghost mut laid: Seq<Geometry> = Seq::empty();
        let mut dimension = self.dimensions;
        let mut max_child_height: i64 = 0;
        let mut previous_box_type = BoxType::Block;
        let mut i: usize = 0;
        while i < self.children.len()
            invariant
                i <= self.children.len(),
                plan == old(self).plan(),
                priors == old(self).geometry().children,
                start == old(self).dimensions,
                self.children.len() == plan.children.len(),
                self.children.len() == priors.len(),
                self.box_type == old(self).box_type,
                self.styled_node == old(self).styled_node,
                self.dimensions == old(self).dimensions,
                self.plan() == plan,
                forall|j: int|
                    i <= j < self.children.len() ==> (#[trigger] self.children[j]).geometry()
                        == priors[j],
                flow(plan, priors, start, i as nat) == Ok::<(Flow, Seq<Geometry>), LayoutError>(
                    (
                        Flow {
                            dimensions: dimension,
                            line_height: max_child_height,
                            previous: previous_box_type,
                        },
                        laid,
                    ),
                ),
                laid.len() == i,
                forall|j: int| 0 <= j < i ==> (#[trigger] self.children[j]).geometry() == laid[j],
            decreases self.children.len() - i,
        {
            let ghost children_before = self.children@;
            assert(self.children[i as int].plan() == plan.children[i as int]);
            let placed = self.children[i].place_child(
                dimension,
                max_child_height,
                previous_box_type,
            );
            proof {
                assert(forall|j: int|
                    0 <= j < children_before.len() && j != i ==> self.children@[j]
                        == children_before[j]);
                assert(self.plan().children =~= plan.children);
            }
            match placed {
                Err(error) => {
                    proof {
                        lemma_flow_error_stays(
                            plan,
                            priors,
                            start,
                            (i + 1) as nat,
                            plan.children.len(),
                        );
                    }
                    return Err(error);
                },
                Ok((dimensions, line_height, previous)) => {
                    dimension = dimensions;
                    max_child_height = line_height;
                    previous_box_type = previous;
                },
            }
            proof {
                laid = laid.push(self.children[i as int].geometry());
            }
            i += 1;
        }
        self.dimensions = dimension;
        proof {
            assert(self.plan().children =~= plan.children);
            assert(self.geometry().children =~= laid);
        }
        Ok(())
    }
}

/// Builds the boxes of `root` and of all below it that is shown, and lays
/// them out in `containing_block`, whose content height does not count: the
/// height of the root comes from what it holds.
///
/// Layout fails where a box that is laid out has a width in a unit other than
/// pixels and percent. The cursors that layout leaves in the dimensions are
/// no part of the result.
pub fn layout_tree<'a>(root: &'a StyledNode<'a>, containing_block: Dimensions) -> (result: Result<
    LayoutBox<'a>,
    LayoutError,
>)
    ensures
        match result {
            Ok(root_box) => {
                &&& root_box.styled_node == root
                &&& root_box.plan() == plan_of(root@)
                &&& layout_of(root@, containing_block) matches Ok(geometry)
                &&& root_box.geometry().settled() == geometry.settled()
            },
            Err(error) => layout_of(root@, containing_block) == Err::<Geometry, LayoutError>(error),
        },
        result is Err <==> has_unsupported_width(plan_of(root@)),
{
    let ghost viewport = containing_block;
    let mut containing_block = containing_block;
    containing_block.content.height = 0;

    let mut root_box = build_layout_tree(root);
    proof {
        lemma_layout_fails_on_unsupported_width(
            plan_of(root@),
            blank(plan_of(root@)),
            emptied(viewport),
        );
    }
    match root_box.layout(containing_block) {
        Err(error) => Err(error),
        Ok(_) => Ok(root_box),
    }
}

/// Builds the box of `node` and the boxes of all below it that is shown, none
/// of them laid out.
fn build_layout_tree<'a>(node: &'a StyledNode<'a>) -> (layout_node: LayoutBox<'a>)
    ensures
        layout_node.styled_node == node,
        layout_node.plan() == plan_of(node@),
        layout_node.geometry() == blank(plan_of(node@)),
    decreases node,
{
    let mut layout_node = LayoutBox::new(
        match node.get_display() {
            Display::Block => BoxType::Block,
            Display::Inline => BoxType::Inline,
            Display::InlineBlock => BoxType::InlineBlock,
            Display::Hidden => BoxType::Anonymous,
        },
        node,
    );
    let mut i: usize = 0;
    while i < node.children.len()
        invariant
            i <= node.children.len(),
            layout_node.styled_node == node,
            layout_node.box_type == box_type_of(display_of(node@.styles)),
            layout_node.dimensions == Dimensions::zero(),
            layout_node.plan().children == plans_of_children(node@, i as nat),
            forall|j: int|
                0 <= j < layout_node.children.len() ==> (
                #[trigger] layout_node.children[j]).geometry() == blank(
                    layout_node.children[j].plan(),
                ),
        decreases node.children.len() - i,
    {
        let child = &node.children[i];
        let ghost plans = layout_node.plan().children;
        let ghost boxes = layout_node.children@;
        assert(node@.children[i as int] == child@);
        match child.get_display() {
            Display::Hidden => {},
            _ => {
                let child_box = build_layout_tree(child);
                layout_node.children.push(child_box);
                proof {
                    assert(layout_node.children@ == boxes.push(child_box));
                    assert(layout_node.plan().children =~= plans.push(plan_of(child@)));
                }
            },
        }
        i += 1;
    }
    proof {
        assert(layout_node.plan() == plan_of(node@));
        assert(layout_node.geometry().children =~= blank(plan_of(node@)).children);
    }
    layout_node
}

impl Rectangle {
    /// The position and the size of the rectangle, each under its initial.
    pub open spec fn text(&self) -> Seq<char> {
        "x: "@ + decimal_text(self.x as int) + ", y: "@ + decimal_text(self.y as int) + ", w: "@
            + decimal_text(self.width as int) + ", h: "@ + decimal_text(self.height as int)
    }

    /// The text form of the rectangle.
    pub fn describe(&self) -> (text: String)
        ensures
            text@ == self.text(),
    {
        let mut text = String::new();
        text.append("x: ");
        push_decimal(&mut text, self.x);
        text.append(", y: ");
        push_decimal(&mut text, self.y);
        text.append(", w: ");
        push_decimal(&mut text, self.width);
        text.append(", h: ");
        push_decimal(&mut text, self.height);
        assert(text@ =~= self.text());
        text
    }
}

impl EdgeSizes {
    /// The thickness on each side, under the name of the side.
    pub open spec fn text(&self) -> Seq<char> {
        "l: "@ + decimal_text(self.left as int) + " r: "@ + decimal_text(self.right as int)
            + " top: "@ + decimal_text(self.top as int) + " bot: "@ + decimal_text(
            self.bottom as int,
        )
    }

    /// The text form of the edges.
    pub fn describe(&self) -> (text: String)
        ensures
            text@ == self.text(),
    {
        let mut text = String::new();
        text.append("l: ");
        push_decimal(&mut text, self.left);
        text.append(" r: ");
        push_decimal(&mut text, self.right);
        text.append(" top: ");
        push_decimal(&mut text, self.top);
        text.append(" bot: ");
        push_decimal(&mut text, self.bottom);
        assert(text@ =~= self.text());
        text
    }
}

impl Dimensions {
    /// The content, the padding, the border and the margin, each under its
    /// name. The cursor is left out.
    pub open spec fn text(&self) -> Seq<char> {
        "content:\n  "@ + self.content.text() + "\npadding:\n  "@ + self.padding.text()
            + "\nborder:\n  "@ + self.border.text() + "\n margin:\n  "@ + self.margin.text()
    }

    /// The text form of the dimensions.
    pub fn describe(&self) -> (text: String)
        ensures
            text@ == self.text(),
    {
        let mut text = String::new();
        text.append("content:\n  ");
        text.append(self.content.describe().as_str());
        text.append("\npadding:\n  ");
        text.append(self.padding.describe().as_str());
        text.append("\nborder:\n  ");
        text.append(self.border.describe().as_str());
        text.append("\n margin:\n  ");
        text.append(self.margin.describe().as_str());
        assert(text@ =~= self.text());
        text
    }
}

impl BoxType {
    /// The name of the kind of box.
    pub open spec fn text(&self) -> Seq<char> {
        match self {
            BoxType::Block => "block"@,
            BoxType::Inline => "inline"@,
            BoxType::InlineBlock => "inline-block"@,
            BoxType::Anonymous => "anonymous"@,
        }
    }

    /// The text form of the kind of box.
    pub fn describe(&self) -> (text: String)
        ensures
            text@ == self.text(),
    {
        let display_type = match self {
            BoxType::Block => "block",
            BoxType::Inline => "inline",
            BoxType::InlineBlock => "inline-block",
            BoxType::Anonymous => "anonymous",
        };
        display_type.to_owned()
    }
}

impl<'a> LayoutBox<'a> {
    /// The kind of the box and its dimensions.
    pub open spec fn text(&self) -> Seq<char> {
        "type:\n  "@ + self.box_type.text() + seq!['\n'] + self.dimensions.text() + seq!['\n']
    }

    /// The text form of the box, without its children.
    pub fn describe(&self) -> (text: String)
        ensures
            text@ == self.text(),
    {
        let mut text = String::new();
        text.append("type:\n  ");
        text.append(self.box_type.describe().as_str());
        text.push('\n');
        text.append(self.dimensions.describe().as_str());
        text.push('\n');
        assert(text@ =~= self.text());
        text
    }
}

} // verus!
