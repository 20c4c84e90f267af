//! What layout computes, stated over plain mathematical trees: the plan of the
//! boxes to lay out, and the geometry that each of them ends up with.

use vstd::prelude::*;
use crate::css::{Unit, Value};
use crate::layout::{BoxType, Dimensions, EdgeSizes, LayoutError, Rectangle};
use crate::number::{clamp, fits, minus, numeric_value, percent_of, plus};
use crate::style::{display_of, length_or, Display, StyleTree};

verus! {

/// What is to be laid out: the kind of a box, the styled node that it is the
/// box of, and the plans of its children. Layout never changes it.
pub struct BoxPlan {
    pub box_type: BoxType,
    pub styled: StyleTree,
    pub children: Seq<BoxPlan>,
}

/// Where a box and the boxes below it are.
pub struct Geometry {
    pub dimensions: Dimensions,
    pub children: Seq<Geometry>,
}

/// How far the children of a box have been placed: the dimensions of the box
/// itself, whose content height and cursor run along, the height of the
/// tallest box seen since the line was last flushed, and the kind of the
/// child placed last.
pub struct Flow {
    pub dimensions: Dimensions,
    pub line_height: i64,
    pub previous: BoxType,
}

/// The kind of box that a display asks for.
pub open spec fn box_type_of(display: Display) -> BoxType {
    match display {
        Display::Block => BoxType::Block,
        Display::Inline => BoxType::Inline,
        Display::InlineBlock => BoxType::InlineBlock,
        Display::Hidden => BoxType::Anonymous,
    }
}

/// The plan for a styled tree: a box for its root, and below it the plans of
/// the children that are shown.
pub open spec fn plan_of(tree: StyleTree) -> BoxPlan
    decreases tree, tree.children.len() + 1,
{
    BoxPlan {
        box_type: box_type_of(display_of(tree.styles)),
        styled: tree,
        children: plans_of_children(tree, tree.children.len()),
    }
}

/// The plans of those among the first `count` children of `tree` that are
/// shown. A child with `display: none` has no box, and neither has anything
/// below it.
pub open spec fn plans_of_children(tree: StyleTree, count: nat) -> Seq<BoxPlan>
    decreases tree, count,
{
    if count == 0 || count > tree.children.len() {
        Seq::empty()
    } else {
        let earlier = plans_of_children(tree, (count - 1) as nat);
        let child = tree.children[count - 1];
        if display_of(child.styles) == Display::Hidden {
            earlier
        } else {
            earlier.push(plan_of(child))
        }
    }
}

/// The geometry of boxes that were built and not yet laid out: every box
/// empty at the origin.
pub open spec fn blank(plan: BoxPlan) -> Geometry
    decreases plan,
{
    Geometry {
        dimensions: Dimensions::zero(),
        children: Seq::new(
            plan.children.len(),
            |i: int|
                if 0 <= i < plan.children.len() {
                    blank(plan.children[i])
                } else {
                    arbitrary()
                },
        ),
    }
}

impl Geometry {
    /// This geometry without the cursors that layout left behind.
    pub open spec fn settled(self) -> Geometry
        decreases self,
    {
        Geometry {
            dimensions: Dimensions { current: Rectangle::zero(), ..self.dimensions },
            children: Seq::new(
                self.children.len(),
                |i: int|
                    if 0 <= i < self.children.len() {
                        self.children[i].settled()
                    } else {
                        arbitrary()
                    },
            ),
        }
    }
}

/// The length in pixels held under `name`: a length in pixels as it is, a
/// percentage as that share of the width of the containing block, rounded
/// down. `None` where `name` holds no length; a length in any other unit is
/// an error.
pub open spec fn absolute_length(
    styles: Map<Seq<char>, Value>,
    name: Seq<char>,
    containing: Dimensions,
) -> Result<Option<i64>, LayoutError> {
    if styles.contains_key(name) {
        match styles[name] {
            Value::Length(magnitude, unit) => match unit {
                Unit::Px => Ok(Some(magnitude)),
                Unit::Pct => Ok(
                    Some(clamp(percent_of(magnitude as int, containing.content.width as int))),
                ),
                _ => Err(LayoutError::UnsupportedUnit),
            },
            _ => Ok(None),
        }
    } else {
        Ok(None)
    }
}

/// The number of pixels held under `name` as a plain decimal number, and 0
/// where `name` holds anything else or nothing.
pub open spec fn plain_number(styles: Map<Seq<char>, Value>, name: Seq<char>) -> i64 {
    if styles.contains_key(name) {
        match styles[name] {
            Value::Other(text) => match numeric_value(text@) {
                Some(value) => clamp(value),
                None => 0,
            },
            _ => 0,
        }
    } else {
        0
    }
}

/// The space that is left of the width of the containing block beside a box
/// of the given width, margins, borders and paddings. It is negative where the
/// box is wider than its containing block.
pub open spec fn underflow(
    containing_width: i64,
    width: i64,
    margin_left: i64,
    margin_right: i64,
    border_left: i64,
    border_right: i64,
    padding_left: i64,
    padding_right: i64,
) -> i64 {
    minus(
        containing_width,
        plus(
            plus(
                plus(plus(plus(plus(width, margin_left), margin_right), border_left), border_right),
                padding_left,
            ),
            padding_right,
        ),
    )
}

/// The horizontal extent of a block: `dimensions` with the left and right
/// border and padding of its node, and with a content width and left and
/// right margins that share out the underflow.
///
/// A box without a width, or of width 0, takes all of a positive underflow as
/// its content width, and adds a negative one to its right margin. A box with
/// a width gives the underflow to the one margin that its node does not set;
/// splits it between both if it sets neither, the left one rounded down; and
/// adds it to the right margin if it sets both.
pub open spec fn block_width(
    styles: Map<Seq<char>, Value>,
    dimensions: Dimensions,
    containing: Dimensions,
) -> Result<Dimensions, LayoutError> {
    match absolute_length(styles, "width"@, containing) {
        Err(error) => Err(error),
        Ok(given) => {
            let width = match given {
                Some(width) => width,
                None => 0,
            };
            let left_set = styles.contains_key("margin-left"@);
            let right_set = styles.contains_key("margin-right"@);
            let margin_left = plain_number(styles, "margin-left"@);
            let margin_right = plain_number(styles, "margin-right"@);
            let border_left = length_or(styles, "border-left-width"@, 0);
            let border_right = length_or(styles, "border-right-width"@, 0);
            let padding_left = length_or(styles, "padding-left"@, 0);
            let padding_right = length_or(styles, "padding-right"@, 0);
            let spare = underflow(
                containing.content.width,
                width,
                margin_left,
                margin_right,
                border_left,
                border_right,
                padding_left,
                padding_right,
            );
            let (content_width, left, right) = if width == 0 {
                if spare >= 0 {
                    (spare, margin_left, margin_right)
                } else {
                    (width, margin_left, plus(margin_right, spare))
                }
            } else if !left_set && right_set {
                (width, spare, margin_right)
            } else if left_set && !right_set {
                (width, margin_left, spare)
            } else if !left_set && !right_set {
                (width, (spare / 2) as i64, (spare - spare / 2) as i64)
            } else {
                (width, margin_left, plus(margin_right, spare))
            };
            Ok(
                Dimensions {
                    content: Rectangle { width: content_width, ..dimensions.content },
                    padding: EdgeSizes {
                        left: padding_left,
                        right: padding_right,
                        ..dimensions.padding
                    },
                    border: EdgeSizes {
                        left: border_left,
                        right: border_right,
                        ..dimensions.border
                    },
                    margin: EdgeSizes { left, right, ..dimensions.margin },
                    current: dimensions.current,
                },
            )
        },
    }
}

/// The horizontal extent of an inline block: the width of its node, or 0, and
/// its left and right margin, border and padding. No underflow is shared out.
pub open spec fn inline_width(
    styles: Map<Seq<char>, Value>,
    dimensions: Dimensions,
    containing: Dimensions,
) -> Result<Dimensions, LayoutError> {
    match absolute_length(styles, "width"@, containing) {
        Err(error) => Err(error),
        Ok(given) => Ok(
            Dimensions {
                content: Rectangle {
                    width: match given {
                        Some(width) => width,
                        None => 0,
                    },
                    ..dimensions.content
                },
                padding: EdgeSizes {
                    left: length_or(styles, "padding-left"@, 0),
                    right: length_or(styles, "padding-right"@, 0),
                    ..dimensions.padding
                },
                border: EdgeSizes {
                    left: length_or(styles, "border-left-width"@, 0),
                    right: length_or(styles, "border-right-width"@, 0),
                    ..dimensions.border
                },
                margin: EdgeSizes {
                    left: plain_number(styles, "margin-left"@),
                    right: plain_number(styles, "margin-right"@),
                    ..dimensions.margin
                },
                current: dimensions.current,
            },
        ),
    }
}

/// `dimensions` with the top and bottom margin, border and padding of the
/// node.
pub open spec fn vertical_edges(
    styles: Map<Seq<char>, Value>,
    dimensions: Dimensions,
) -> Dimensions {
    Dimensions {
        margin: EdgeSizes {
            top: length_or(styles, "margin-top"@, 0),
            bottom: length_or(styles, "margin-bottom"@, 0),
            ..dimensions.margin
        },
        border: EdgeSizes {
            top: length_or(styles, "border-top-width"@, 0),
            bottom: length_or(styles, "border-bottom-width"@, 0),
            ..dimensions.border
        },
        padding: EdgeSizes {
            top: length_or(styles, "padding-top"@, 0),
            bottom: length_or(styles, "padding-bottom"@, 0),
            ..dimensions.padding
        },
        ..dimensions
    }
}

/// The top of the content of a box that is placed in `containing`: below
/// what the containing block holds so far, inside the top margin, border and
/// padding of the box.
pub open spec fn content_top(edges: Dimensions, containing: Dimensions) -> i64 {
    plus(
        plus(
            plus(plus(containing.content.height, containing.content.y), edges.margin.top),
            edges.border.top,
        ),
        edges.padding.top,
    )
}

/// Where a block stands: at the left edge of its containing block and below
/// what that holds so far, inside its own margin, border and padding.
pub open spec fn block_position(
    styles: Map<Seq<char>, Value>,
    dimensions: Dimensions,
    containing: Dimensions,
) -> Dimensions {
    let edges = vertical_edges(styles, dimensions);
    Dimensions {
        content: Rectangle {
            x: plus(
                plus(plus(containing.content.x, edges.margin.left), edges.border.left),
                edges.padding.left,
            ),
            y: content_top(edges, containing),
            ..edges.content
        },
        ..edges
    }
}

/// Where an inline block stands: as a block does, but to the right of the
/// cursor of its containing block.
pub open spec fn inline_position(
    styles: Map<Seq<char>, Value>,
    dimensions: Dimensions,
    containing: Dimensions,
) -> Dimensions {
    let edges = vertical_edges(styles, dimensions);
    Dimensions {
        content: Rectangle {
            x: plus(
                plus(
                    plus(plus(containing.content.x, containing.current.x), edges.margin.left),
                    edges.border.left,
                ),
                edges.padding.left,
            ),
            y: content_top(edges, containing),
            ..edges.content
        },
        ..edges
    }
}

/// `dimensions` with the height that the node sets, if it sets a length; the
/// height that its children gave it stands otherwise.
pub open spec fn explicit_height(
    styles: Map<Seq<char>, Value>,
    dimensions: Dimensions,
) -> Dimensions {
    Dimensions {
        content: Rectangle {
            height: length_or(styles, "height"@, dimensions.content.height),
            ..dimensions.content
        },
        ..dimensions
    }
}

/// `dimensions` after the line was flushed: the content grows by the height
/// of the line and the cursor is back at the left.
pub open spec fn flushed(dimensions: Dimensions, line_height: i64) -> Dimensions {
    Dimensions {
        content: Rectangle {
            height: plus(dimensions.content.height, line_height),
            ..dimensions.content
        },
        current: Rectangle { x: 0, ..dimensions.current },
        ..dimensions
    }
}

/// `dimensions` with a content taller by `height`.
pub open spec fn grown(dimensions: Dimensions, height: i64) -> Dimensions {
    Dimensions {
        content: Rectangle {
            height: plus(dimensions.content.height, height),
            ..dimensions.content
        },
        ..dimensions
    }
}

/// `dimensions` with the cursor further right by `width`.
pub open spec fn advanced(dimensions: Dimensions, width: i64) -> Dimensions {
    Dimensions {
        current: Rectangle { x: plus(dimensions.current.x, width), ..dimensions.current },
        ..dimensions
    }
}

/// The geometry of a box and of all below it after it was laid out in
/// `containing`, from the geometry `prior` that it had before.
///
/// A block and an inline box take their width and position as a block does,
/// an inline block as an inline block does; then the children are placed, and
/// last the height that the node sets replaces the one that they gave. An
/// anonymous box stays as it was.
pub open spec fn layout_box(plan: BoxPlan, prior: Geometry, containing: Dimensions) -> Result<
    Geometry,
    LayoutError,
>
    decreases plan, plan.children.len() + 1,
{
    let sized = match plan.box_type {
        BoxType::Anonymous => Ok(prior.dimensions),
        BoxType::InlineBlock => inline_width(plan.styled.styles, prior.dimensions, containing),
        _ => block_width(plan.styled.styles, prior.dimensions, containing),
    };
    match sized {
        Err(error) => Err(error),
        Ok(sized) => if plan.box_type == BoxType::Anonymous {
            Ok(prior)
        } else {
            let placed = if plan.box_type == BoxType::InlineBlock {
                inline_position(plan.styled.styles, sized, containing)
            } else {
                block_position(plan.styled.styles, sized, containing)
            };
            match flow(plan, prior.children, placed, plan.children.len()) {
                Err(error) => Err(error),
                Ok((done, children)) => Ok(
                    Geometry {
                        dimensions: explicit_height(plan.styled.styles, done.dimensions),
                        children,
                    },
                ),
            }
        },
    }
}

/// The flow of a box and the geometry of a child of it after the child was
/// placed in the flow `before`, from the geometry `prior` that the child had.
///
/// An anonymous child is passed over: it stays as it was and so does the
/// flow. Any other child is laid out in the dimensions of its parent as they
/// then are. A block after an inline block first flushes the line. A block
/// then adds the height of its margin box to the content of its parent. An
/// inline block moves the cursor on by the width of its margin box; where
/// that takes the cursor beyond the content width of the parent, the line is
/// flushed, the child is laid out again at the start of the new line, and the
/// cursor moves on from there. A flush starts the tallest height over at 0.
pub open spec fn place(child: BoxPlan, prior: Geometry, before: Flow) -> Result<
    (Flow, Geometry),
    LayoutError,
>
    decreases child, child.children.len() + 2,
{
    let breaks = before.previous == BoxType::InlineBlock && child.box_type == BoxType::Block;
    let opened = if breaks {
        flushed(before.dimensions, before.line_height)
    } else {
        before.dimensions
    };
    let carried = if breaks {
        0
    } else {
        before.line_height
    };
    if child.box_type == BoxType::Anonymous {
        Ok((before, prior))
    } else {
        match layout_box(child, prior, opened) {
            Err(error) => Err(error),
            Ok(first) => {
                let height = first.dimensions.spec_margin_box().height;
                let line_height = if height > carried {
                    height
                } else {
                    carried
                };
                match child.box_type {
                    BoxType::Block => Ok(
                        (
                            Flow {
                                dimensions: grown(opened, height),
                                line_height,
                                previous: child.box_type,
                            },
                            first,
                        ),
                    ),
                    BoxType::InlineBlock => {
                        let moved = advanced(opened, first.dimensions.spec_margin_box().width);
                        if moved.current.x > moved.content.width {
                            let wrapped = flushed(moved, line_height);
                            match layout_box(child, first, wrapped) {
                                Err(error) => Err(error),
                                Ok(second) => Ok(
                                    (
                                        Flow {
                                            dimensions: advanced(
                                                wrapped,
                                                second.dimensions.spec_margin_box().width,
                                            ),
                                            line_height: 0,
                                            previous: child.box_type,
                                        },
                                        second,
                                    ),
                                ),
                            }
                        } else {
                            Ok(
                                (
                                    Flow {
                                        dimensions: moved,
                                        line_height,
                                        previous: child.box_type,
                                    },
                                    first,
                                ),
                            )
                        }
                    },
                    _ => Ok(
                        (Flow { dimensions: opened, line_height, previous: child.box_type }, first),
                    ),
                }
            },
        }
    }
}

/// The flow of a box, whose own dimensions were `start` when its children
/// came up, after the first `count` of them were placed one after the other,
/// and the geometry of those children. `priors` is the geometry that the
/// children had before.
pub open spec fn flow(
    plan: BoxPlan,
    priors: Seq<Geometry>,
    start: Dimensions,
    count: nat,
) -> Result<(Flow, Seq<Geometry>), LayoutError>
    decreases plan, count,
{
    if count == 0 || count > plan.children.len() {
        Ok((Flow { dimensions: start, line_height: 0, previous: BoxType::Block }, Seq::empty()))
    } else {
        match flow(plan, priors, start, (count - 1) as nat) {
            Err(error) => Err(error),
            Ok((before, laid)) => match place(plan.children[count - 1], priors[count - 1], before) {
                Err(error) => Err(error),
                Ok((after, child)) => Ok((after, laid.push(child))),
            },
        }
    }
}

/// Once a child cannot be placed, the flow has failed for good.
pub proof fn lemma_flow_error_stays(
    plan: BoxPlan,
    priors: Seq<Geometry>,
    start: Dimensions,
    failed: nat,
    count: nat,
)
    requires
        flow(plan, priors, start, failed) is Err,
        failed <= count <= plan.children.len(),
    ensures
        flow(plan, priors, start, count) == flow(plan, priors, start, failed),
    decreases count,
{
    if failed < count {
        lemma_flow_error_stays(plan, priors, start, failed, (count - 1) as nat);
    }
}

/// The containing block of the root: the viewport with nothing in it yet.
pub open spec fn emptied(viewport: Dimensions) -> Dimensions {
    Dimensions { content: Rectangle { height: 0, ..viewport.content }, ..viewport }
}

/// The geometry of the boxes of a styled tree laid out in `viewport`.
pub open spec fn layout_of(tree: StyleTree, viewport: Dimensions) -> Result<Geometry, LayoutError> {
    layout_box(plan_of(tree), blank(plan_of(tree)), emptied(viewport))
}

/// A block without a width and without margins fills its containing block:
/// its content width and its left and right border and padding add up to the
/// content width of the containing block, with nothing left over.
///
/// This holds where the borders and paddings are not wider than the
/// containing block and the space that they leave is computed without
/// saturation.
pub proof fn lemma_auto_width_fills_containing_block(
    styles: Map<Seq<char>, Value>,
    dimensions: Dimensions,
    containing: Dimensions,
)
    requires
        !styles.contains_key("width"@),
        !styles.contains_key("margin-left"@),
        !styles.contains_key("margin-right"@),
        ({
            let border_left = length_or(styles, "border-left-width"@, 0);
            let border_right = length_or(styles, "border-right-width"@, 0);
            let padding_left = length_or(styles, "padding-left"@, 0);
            let padding_right = length_or(styles, "padding-right"@, 0);
            let edges = border_left + border_right + padding_left + padding_right;
            &&& edges <= containing.content.width
            &&& underflow(
                containing.content.width,
                0,
                0,
                0,
                border_left,
                border_right,
                padding_left,
                padding_right,
            ) == containing.content.width - edges
        }),
    ensures
        block_width(styles, dimensions, containing) matches Ok(sized) && sized.content.width
            + sized.border.left + sized.border.right + sized.padding.left + sized.padding.right
            == containing.content.width,
{
}

/// The horizontal extent that a block asks for: its width, or 0, and its
/// margins, borders and paddings, added up without bound.
pub open spec fn asked_width(styles: Map<Seq<char>, Value>, containing: Dimensions) -> int {
    let width = match absolute_length(styles, "width"@, containing) {
        Ok(Some(width)) => width,
        _ => 0,
    };
    width + plain_number(styles, "margin-left"@) + plain_number(styles, "margin-right"@)
        + length_or(styles, "border-left-width"@, 0) + length_or(styles, "border-right-width"@, 0)
        + length_or(styles, "padding-left"@, 0) + length_or(styles, "padding-right"@, 0)
}

/// The margin box of a block is exactly as wide as the content of its
/// containing block, whatever its node sets: what the node leaves open, or
/// else the right margin, takes up the difference.
///
/// This holds where neither the space left over nor the right margin
/// saturates.
pub proof fn lemma_block_spans_containing_block(
    styles: Map<Seq<char>, Value>,
    dimensions: Dimensions,
    containing: Dimensions,
)
    requires
        block_width(styles, dimensions, containing) is Ok,
        ({
            let spare = containing.content.width - asked_width(styles, containing);
            &&& fits(spare)
            &&& fits(plain_number(styles, "margin-right"@) + spare)
            &&& underflow(
                containing.content.width,
                match absolute_length(styles, "width"@, containing) {
                    Ok(Some(width)) => width,
                    _ => 0,
                },
                plain_number(styles, "margin-left"@),
                plain_number(styles, "margin-right"@),
                length_or(styles, "border-left-width"@, 0),
                length_or(styles, "border-right-width"@, 0),
                length_or(styles, "padding-left"@, 0),
                length_or(styles, "padding-right"@, 0),
            ) == spare
        }),
    ensures
        block_width(styles, dimensions, containing) matches Ok(sized) && sized.margin.left
            + sized.border.left + sized.padding.left + sized.content.width + sized.padding.right
            + sized.border.right + sized.margin.right == containing.content.width,
{
}

/// Whether a width is set in a unit that layout cannot measure.
pub open spec fn width_unsupported(styles: Map<Seq<char>, Value>) -> bool {
    &&& styles.contains_key("width"@)
    &&& styles["width"@] matches Value::Length(_, unit)
    &&& unit != Unit::Px
    &&& unit != Unit::Pct
}

/// Whether laying out `plan` meets a width that it cannot measure: in the
/// box itself or in a box below it, none of them anonymous or below an
/// anonymous box.
pub open spec fn has_unsupported_width(plan: BoxPlan) -> bool
    decreases plan,
{
    &&& plan.box_type != BoxType::Anonymous
    &&& (width_unsupported(plan.styled.styles) || exists|i: int|
        0 <= i < plan.children.len() && has_unsupported_width(#[trigger] plan.children[i]))
}

/// Layout fails on exactly the plans with a width that it cannot measure,
/// wherever the box is laid out and whatever its geometry was before.
pub proof fn lemma_layout_fails_on_unsupported_width(
    plan: BoxPlan,
    prior: Geometry,
    containing: Dimensions,
)
    ensures
        layout_box(plan, prior, containing) is Err <==> has_unsupported_width(plan),
    decreases plan, plan.children.len() + 1,
{
    if plan.box_type != BoxType::Anonymous {
        let sized = if plan.box_type == BoxType::InlineBlock {
            inline_width(plan.styled.styles, prior.dimensions, containing)
        } else {
            block_width(plan.styled.styles, prior.dimensions, containing)
        };
        assert(sized is Err <==> width_unsupported(plan.styled.styles));
        if sized is Ok {
            let placed = if plan.box_type == BoxType::InlineBlock {
                inline_position(plan.styled.styles, sized->Ok_0, containing)
            } else {
                block_position(plan.styled.styles, sized->Ok_0, containing)
            };
            lemma_flow_fails_on_unsupported_width(
                plan,
                prior.children,
                placed,
                plan.children.len(),
            );
        }
    }
}

proof fn lemma_place_fails_on_unsupported_width(child: BoxPlan, prior: Geometry, before: Flow)
    ensures
        place(child, prior, before) is Err <==> has_unsupported_width(child),
    decreases child, child.children.len() + 2,
{
    let breaks = before.previous == BoxType::InlineBlock && child.box_type == BoxType::Block;
    let opened = if breaks {
        flushed(before.dimensions, before.line_height)
    } else {
        before.dimensions
    };
    lemma_layout_fails_on_unsupported_width(child, prior, opened);
    match layout_box(child, prior, opened) {
        Err(_) => {},
        Ok(first) => {
            let height = first.dimensions.spec_margin_box().height;
            let carried = if breaks {
                0
            } else {
                before.line_height
            };
            let line_height = if height > carried {
                height
            } else {
                carried
            };
            let moved = advanced(opened, first.dimensions.spec_margin_box().width);
            lemma_layout_fails_on_unsupported_width(child, first, flushed(moved, line_height));
        },
    }
}

proof fn lemma_flow_fails_on_unsupported_width(
    plan: BoxPlan,
    priors: Seq<Geometry>,
    start: Dimensions,
    count: nat,
)
    requires
        count <= plan.children.len(),
    ensures
        flow(plan, priors, start, count) is Err <==> exists|i: int|
            0 <= i < count && has_unsupported_width(#[trigger] plan.children[i]),
    decreases plan, count,
{
    if count > 0 {
        lemma_flow_fails_on_unsupported_width(plan, priors, start, (count - 1) as nat);
        match flow(plan, priors, start, (count - 1) as nat) {
            Err(_) => {},
            Ok((before, laid)) => {
                lemma_place_fails_on_unsupported_width(
                    plan.children[count - 1],
                    priors[count - 1],
                    before,
                );
                if has_unsupported_width(plan.children[count - 1]) {
                } else {
                    assert forall|i: int| 0 <= i < count implies !has_unsupported_width(
                        #[trigger] plan.children[i],
                    ) by {}
                }
            },
        }
    }
}

} // verus!
