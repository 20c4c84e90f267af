//! The display list: the filled rectangles that paint a laid-out tree, in the
//! order in which they are painted.

use vstd::prelude::*;
use vstd::string::StringExecFns;
use crate::box_model::{BoxPlan, Geometry};
use crate::css::{Color, Value};
use crate::layout::{Dimensions, LayoutBox, Rectangle};
use crate::number::{minus, plus, sat_add, sat_sub};

verus! {

/// One painting step.
#[derive(Debug, Clone, Copy, PartialEq, Eq, Structural)]
pub enum DisplayCommand {
    /// Fill the rectangle with the colour.
    SolidRectangle(Color, Rectangle),
}

/// Painting steps in the order in which they are carried out.
pub type DisplayList = Vec<DisplayCommand>;

/// The colour held under `name`, if `name` holds a colour.
pub open spec fn color_of(styles: Map<Seq<char>, Value>, name: Seq<char>) -> Option<Color> {
    if styles.contains_key(name) {
        match styles[name] {
            Value::Color(color) => Some(color),
            _ => None,
        }
    } else {
        None
    }
}

/// The background of a box: its border box filled with its background
/// colour, and nothing where it has none.
pub open spec fn background_of(styles: Map<Seq<char>, Value>, dimensions: Dimensions) -> Seq<
    DisplayCommand,
> {
    match color_of(styles, "background-color"@) {
        Some(color) => seq![DisplayCommand::SolidRectangle(color, dimensions.spec_border_box())],
        None => Seq::empty(),
    }
}

/// The four strokes of the border of a box, in its border colour: left,
/// right, top and bottom; nothing where it has no border colour.
///
/// The left and the right stroke are as high as the border box, and both are
/// as wide as the left border; the right one starts the width of the right
/// border before the right side of the border box. The top and the bottom
/// stroke are as wide as the border box and as high as the top and the bottom
/// border; both start at the top of the border box.
pub open spec fn borders_of(styles: Map<Seq<char>, Value>, dimensions: Dimensions) -> Seq<
    DisplayCommand,
> {
    match color_of(styles, "border-color"@) {
        Some(color) => {
            let border_box = dimensions.spec_border_box();
            seq![
                DisplayCommand::SolidRectangle(
                    color,
                    Rectangle {
                        x: border_box.x,
                        y: border_box.y,
                        width: dimensions.border.left,
                        height: border_box.height,
                    },
                ),
                DisplayCommand::SolidRectangle(
                    color,
                    Rectangle {
                        x: minus(plus(border_box.x, border_box.width), dimensions.border.right),
                        y: border_box.y,
                        width: dimensions.border.left,
                        height: border_box.height,
                    },
                ),
                DisplayCommand::SolidRectangle(
                    color,
                    Rectangle {
                        x: border_box.x,
                        y: border_box.y,
                        width: border_box.width,
                        height: dimensions.border.top,
                    },
                ),
                DisplayCommand::SolidRectangle(
                    color,
                    Rectangle {
                        x: border_box.x,
                        y: border_box.y,
                        width: border_box.width,
                        height: dimensions.border.bottom,
                    },
                ),
            ]
        },
        None => Seq::empty(),
    }
}

/// The display list of a box and of all below it: its background, its
/// border, and then its children, each with all below it, in their order.
pub open spec fn commands_of(plan: BoxPlan, geometry: Geometry) -> Seq<DisplayCommand>
    decreases plan, plan.children.len() + 1,
{
    background_of(plan.styled.styles, geometry.dimensions) + borders_of(
        plan.styled.styles,
        geometry.dimensions,
    ) + commands_of_children(plan, geometry, plan.children.len())
}

/// The display lists of the first `count` children of a box, one after the
/// other.
pub open spec fn commands_of_children(plan: BoxPlan, geometry: Geometry, count: nat) -> Seq<
    DisplayCommand,
>
    decreases plan, count,
{
    if count == 0 || count > plan.children.len() {
        Seq::empty()
    } else {
        commands_of_children(plan, geometry, (count - 1) as nat) + commands_of(
            plan.children[count - 1],
            geometry.children[count - 1],
        )
    }
}

/// The display list of `root` and of all below it. It is made from the
/// colours of the nodes and from their border boxes and borders alone.
pub fn build_display_commands(root: &LayoutBox) -> (commands: DisplayList)
    ensures
        commands@ == commands_of(root.plan(), root.geometry()),
{
    let mut commands = Vec::new();

    render_layout_box(&mut commands, root);

    commands
}

/// Appends the display list of `layout_box` and of all below it.
fn render_layout_box(commands: &mut DisplayList, layout_box: &LayoutBox)
    ensures
        final(commands)@ == old(commands)@ + commands_of(layout_box.plan(), layout_box.geometry()),
    decreases layout_box,
{
    render_background(commands, layout_box);
    render_borders(commands, layout_box);

    let ghost own = commands@;
    let ghost plan = layout_box.plan();
    let ghost geometry = layout_box.geometry();
    let mut i: usize = 0;
    while i < layout_box.children.len()
        invariant
            i <= layout_box.children.len(),
            plan == layout_box.plan(),
            geometry == layout_box.geometry(),
            commands@ == own + commands_of_children(plan, geometry, i as nat),
        decreases layout_box.children.len() - i,
    {
        render_layout_box(commands, &layout_box.children[i]);
        i += 1;
        assert(commands@ =~= own + commands_of_children(plan, geometry, i as nat));
    }
    assert(commands@ =~= old(commands)@ + commands_of(plan, geometry));
}

/// Appends the background of `layout_box`, if it has a background colour.
fn render_background(commands: &mut DisplayList, layout_box: &LayoutBox)
    ensures
        final(commands)@ == old(commands)@ + background_of(
            layout_box.styles(),
            layout_box.dimensions,
        ),
{
    match get_color(layout_box, "background-color") {
        Some(color) => {
            commands.push(
                DisplayCommand::SolidRectangle(color, layout_box.dimensions.border_box()),
            );
        },
        None => {},
    }
    assert(commands@ =~= old(commands)@ + background_of(
        layout_box.styles(),
        layout_box.dimensions,
    ));
}

/// The colour that the node of `layout_box` has for `name`.
fn get_color(layout_box: &LayoutBox, name: &str) -> (color: Option<Color>)
    ensures
        color == color_of(layout_box.styles(), name@),
{
    match layout_box.styled_node.value(name) {
        Some(value) => match value {
            Value::Color(color) => Some(*color),
            _ => None,
        },
        None => None,
    }
}

/// Appends the four strokes of the border of `layout_box`, if it has a border
/// colour.
fn render_borders(commands: &mut DisplayList, layout_box: &LayoutBox)
    ensures
        final(commands)@ == old(commands)@ + borders_of(
            layout_box.styles(),
            layout_box.dimensions,
        ),
{
    let color = match get_color(layout_box, "border-color") {
        Some(color) => color,
        _ => {
            assert(commands@ =~= old(commands)@ + borders_of(
                layout_box.styles(),
                layout_box.dimensions,
            ));
            return ;
        },
    };

    let dimension = &layout_box.dimensions;
    let border_box = dimension.border_box();

    commands.push(
        DisplayCommand::SolidRectangle(
            color,
            Rectangle {
                x: border_box.x,
                y: border_box.y,
                width: dimension.border.left,
                height: border_box.height,
            },
        ),
    );

    commands.push(
        DisplayCommand::SolidRectangle(
            color,
            Rectangle {
                x: sat_sub(sat_add(border_box.x, border_box.width), dimension.border.right),
                y: border_box.y,
                width: dimension.border.left,
                height: border_box.height,
            },
        ),
    );

    commands.push(
        DisplayCommand::SolidRectangle(
            color,
            Rectangle {
                x: border_box.x,
                y: border_box.y,
                width: border_box.width,
                height: dimension.border.top,
            },
        ),
    );

    commands.push(
        DisplayCommand::SolidRectangle(
            color,
            Rectangle {
                x: border_box.x,
                y: border_box.y,
                width: border_box.width,
                height: dimension.border.bottom,
            },
        ),
    );
    assert(commands@ =~= old(commands)@ + borders_of(
        layout_box.styles(),
        layout_box.dimensions,
    ));
}

impl DisplayCommand {
    /// The colour and the rectangle, with a space between them.
    pub open spec fn text(&self) -> Seq<char> {
        match self {
            DisplayCommand::SolidRectangle(color, rectangle) => color.text() + seq![' ']
                + rectangle.text(),
        }
    }

    /// The text form of the command.
    pub fn describe(&self) -> (text: String)
        ensures
            text@ == self.text(),
    {
        match self {
            DisplayCommand::SolidRectangle(color, rectangle) => {
                let mut text = color.describe();
                text.push(' ');
                text.append(rectangle.describe().as_str());
                text
            },
        }
    }
}

} // verus!
