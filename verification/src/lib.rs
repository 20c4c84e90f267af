//! A small layout engine. It resolves which declarations of a stylesheet
//! apply to each element of a document, builds a box for every element that
//! is shown, and computes where each box lies.
//!
//! All lengths are whole pixels held in `i64`, and all sums saturate, so
//! layout never overflows and never panics. A width in a unit that cannot be
//! measured is the one thing that makes layout fail.
//!
//! - `dom` holds the document tree and `css` the stylesheet.
//! - `style` resolves the properties of every element.
//! - `layout` builds the boxes and lays them out; `box_model` states what the
//!   result is.
//! - `command` turns the boxes into a display list.
//! - `html_parser` reads a document from text; `markup` states what it reads.
//! - `number`, `text` and `string_map` hold the arithmetic, the text forms of
//!   numbers, and the map that keeps attributes and properties.

pub mod box_model;
pub mod command;
pub mod css;
pub mod dom;
pub mod html_parser;
pub mod layout;
pub mod markup;
pub mod number;
pub mod string_map;
pub mod style;
pub mod text;
