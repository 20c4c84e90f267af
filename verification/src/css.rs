//! The parsed form of a stylesheet: rules, selectors, declarations and values.

use vstd::prelude::*;
use vstd::string::StringExecFns;
use crate::text::{decimal_text, joined, push_decimal, push_joined, quote, quoted};

verus! {

/// A colour with four 8-bit channels.
#[derive(Debug, PartialEq, Eq, Structural)]
pub struct Color {
    pub red: u8,
    pub green: u8,
    pub blue: u8,
    pub alpha: u8,
}

/// The unit of a length.
#[derive(Debug, PartialEq, Eq, Structural)]
pub enum Unit {
    Em,
    Ex,
    Chr,
    Rem,
    Vh,
    Vw,
    Vmin,
    Vmax,
    Px,
    Mm,
    Q,
    Cm,
    In,
    Pt,
    Pc,
    Pct,
}

/// The value of a declaration.
#[derive(Debug, PartialEq, Eq)]
pub enum Value {
    Color(Color),
    /// A magnitude in whole units, and the unit.
    Length(i64, Unit),
    /// Anything else, keywords included, as it was written.
    Other(String),
}

/// One declaration: a property and the value it is given.
#[derive(Debug, PartialEq, Eq)]
pub struct Declarations {
    pub property: String,
    pub value: Value,
}

/// A selector term: at most one tag name, at most one id, and class names.
#[derive(Debug, PartialEq, Eq)]
pub struct SimpleSelector {
    pub tag_name: Option<String>,
    pub id: Option<String>,
    pub classes: Vec<String>,
}

/// A sequence of simple selectors and the combinators written between them.
#[derive(Debug, PartialEq, Eq)]
pub struct Selector {
    pub simple: Vec<SimpleSelector>,
    pub combinators: Vec<char>,
}

/// Alternative selectors and the declarations that apply where one matches.
#[derive(Debug, PartialEq, Eq)]
pub struct Rule {
    pub selectors: Vec<Selector>,
    pub declarations: Vec<Declarations>,
}

/// Rules in the order in which they were written.
#[derive(Debug, PartialEq, Eq)]
pub struct StyleSheet {
    pub rules: Vec<Rule>,
}

impl StyleSheet {
    pub fn new(rules: Vec<Rule>) -> (sheet: StyleSheet)
        ensures
            sheet.rules == rules,
    {
        StyleSheet { rules }
    }
}

impl Default for StyleSheet {
    fn default() -> (sheet: Self)
        ensures
            sheet.rules@ == Seq::<Rule>::empty(),
    {
        StyleSheet { rules: Vec::new() }
    }
}

impl Rule {
    pub fn new(selectors: Vec<Selector>, declarations: Vec<Declarations>) -> (rule: Rule)
        ensures
            rule.selectors == selectors,
            rule.declarations == declarations,
    {
        Rule { selectors, declarations }
    }
}

impl Default for Rule {
    fn default() -> (rule: Self)
        ensures
            rule.selectors@ == Seq::<Selector>::empty(),
            rule.declarations@ == Seq::<Declarations>::empty(),
    {
        Rule { selectors: Vec::new(), declarations: Vec::new() }
    }
}

impl Selector {
    pub fn new(simple: Vec<SimpleSelector>, combinators: Vec<char>) -> (selector: Selector)
        ensures
            selector.simple == simple,
            selector.combinators == combinators,
    {
        Selector { simple, combinators }
    }
}

impl Default for Selector {
    fn default() -> (selector: Self)
        ensures
            selector.simple@ == Seq::<SimpleSelector>::empty(),
            selector.combinators@ == Seq::<char>::empty(),
    {
        Selector { simple: Vec::new(), combinators: Vec::new() }
    }
}

impl SimpleSelector {
    pub fn new(tag_name: Option<String>, id: Option<String>, classes: Vec<String>) -> (simple:
        SimpleSelector)
        ensures
            simple.tag_name == tag_name,
            simple.id == id,
            simple.classes == classes,
    {
        SimpleSelector { tag_name, id, classes }
    }
}

impl Default for SimpleSelector {
    fn default() -> (simple: Self)
        ensures
            simple.tag_name is None,
            simple.id is None,
            simple.classes@ == Seq::<String>::empty(),
    {
        SimpleSelector { tag_name: None, id: None, classes: Vec::new() }
    }
}

impl Declarations {
    pub fn new(property: String, value: Value) -> (declaration: Declarations)
        ensures
            declaration.property == property,
            declaration.value == value,
    {
        Declarations { property, value }
    }
}

impl Default for Declarations {
    fn default() -> (declaration: Self)
        ensures
            declaration.property@ == Seq::<char>::empty(),
            declaration.value matches Value::Other(text) && text@ == Seq::<char>::empty(),
    {
        Declarations { property: String::new(), value: Value::Other(String::new()) }
    }
}

impl Color {
    pub fn new(red: u8, green: u8, blue: u8, alpha: u8) -> (color: Self)
        ensures
            color == (Color { red, green, blue, alpha }),
    {
        Color { red, green, blue, alpha }
    }
}

impl Default for Color {
    /// Opaque white.
    fn default() -> (color: Self)
        ensures
            color == (Color { red: 255, green: 255, blue: 255, alpha: 255 }),
    {
        Color::new(255, 255, 255, 255)
    }
}

impl Clone for Color {
    fn clone(&self) -> (color: Self)
        ensures
            color == *self,
    {
        Color { red: self.red, green: self.green, blue: self.blue, alpha: self.alpha }
    }
}

impl Copy for Color {

}

impl Clone for Unit {
    fn clone(&self) -> (unit: Self)
        ensures
            unit == *self,
    {
        match self {
            Unit::Em => Unit::Em,
            Unit::Ex => Unit::Ex,
            Unit::Chr => Unit::Chr,
            Unit::Rem => Unit::Rem,
            Unit::Vh => Unit::Vh,
            Unit::Vw => Unit::Vw,
            Unit::Vmin => Unit::Vmin,
            Unit::Vmax => Unit::Vmax,
            Unit::Px => Unit::Px,
            Unit::Mm => Unit::Mm,
            Unit::Q => Unit::Q,
            Unit::Cm => Unit::Cm,
            Unit::In => Unit::In,
            Unit::Pt => Unit::Pt,
            Unit::Pc => Unit::Pc,
            Unit::Pct => Unit::Pct,
        }
    }
}

impl Copy for Unit {

}

impl Clone for Value {
    fn clone(&self) -> (value: Self)
        ensures
            value == *self,
    {
        match self {
            Value::Color(color) => Value::Color(*color),
            Value::Length(magnitude, unit) => Value::Length(*magnitude, *unit),
            Value::Other(text) => Value::Other(text.clone()),
        }
    }
}

impl Color {
    /// The four channels of the colour, each under its initial.
    pub open spec fn text(&self) -> Seq<char> {
        "r: "@ + decimal_text(self.red as int) + " g: "@ + decimal_text(self.green as int)
            + " b: "@ + decimal_text(self.blue as int) + " a: "@ + decimal_text(
            self.alpha as int,
        )
    }

    /// The text form of the colour.
    pub fn describe(&self) -> (text: String)
        ensures
            text@ == self.text(),
    {
        let mut text = String::new();
        text.append("r: ");
        push_decimal(&mut text, self.red as i64);
        text.append(" g: ");
        push_decimal(&mut text, self.green as i64);
        text.append(" b: ");
        push_decimal(&mut text, self.blue as i64);
        text.append(" a: ");
        push_decimal(&mut text, self.alpha as i64);
        assert(text@ =~= self.text());
        text
    }
}

impl Value {
    /// A colour by its channels, a length by its magnitude, and anything else
    /// between quotes.
    pub open spec fn text(&self) -> Seq<char> {
        match self {
            Value::Color(color) => color.text(),
            Value::Length(magnitude, _) => decimal_text(*magnitude as int),
            Value::Other(string) => quoted(string@),
        }
    }

    /// The text form of the value.
    pub fn describe(&self) -> (text: String)
        ensures
            text@ == self.text(),
    {
        match self {
            Value::Color(color) => color.describe(),
            Value::Length(magnitude, _) => crate::text::decimal(*magnitude),
            Value::Other(string) => quote(string.as_str()),
        }
    }
}

impl Declarations {
    /// The property, a colon, and the value.
    pub open spec fn text(&self) -> Seq<char> {
        self.property@ + ": "@ + self.value.text()
    }

    /// The text form of the declaration.
    pub fn describe(&self) -> (text: String)
        ensures
            text@ == self.text(),
    {
        let mut text = String::new();
        text.append(self.property.as_str());
        text.append(": ");
        text.append(self.value.describe().as_str());
        assert(text@ =~= self.text());
        text
    }
}

impl SimpleSelector {
    /// The first `count` classes, each after a dot.
    pub open spec fn classes_text(&self, count: nat) -> Seq<char>
        decreases count,
    {
        if count == 0 || count > self.classes.len() {
            Seq::empty()
        } else {
            self.classes_text((count - 1) as nat) + seq!['.'] + self.classes[count - 1]@
        }
    }

    /// The tag name, the id after `#`, and each class after a dot, as far as
    /// the selector has them.
    pub open spec fn text(&self) -> Seq<char> {
        let tag = match self.tag_name {
            Some(tag) => tag@,
            None => Seq::empty(),
        };
        let id = match self.id {
            Some(id) => seq!['#'] + id@,
            None => Seq::empty(),
        };
        tag + id + self.classes_text(self.classes.len() as nat)
    }

    /// The text form of the selector.
    pub fn describe(&self) -> (text: String)
        ensures
            text@ == self.text(),
    {
        let mut selector = String::new();

        match &self.tag_name {
            Some(tag) => selector.append(tag.as_str()),
            None => {},
        }

        match &self.id {
            Some(id) => {
                selector.push('#');
                selector.append(id.as_str());
            },
            None => {},
        }
        let ghost head = selector@;

        let mut i: usize = 0;
        while i < self.classes.len()
            invariant
                i <= self.classes.len(),
                selector@ == head + self.classes_text(i as nat),
            decreases self.classes.len() - i,
        {
            selector.push('.');
            selector.append(self.classes[i].as_str());
            i += 1;
            assert(selector@ =~= head + self.classes_text(i as nat));
        }
        assert(selector@ =~= self.text());
        selector
    }
}

impl Selector {
    /// The text forms of the simple selectors.
    pub open spec fn parts(&self) -> Seq<Seq<char>> {
        Seq::new(self.simple.len() as nat, |i: int| self.simple[i].text())
    }

    /// The simple selectors with a comma and a space between them.
    pub open spec fn text(&self) -> Seq<char> {
        joined(self.parts(), ", "@, self.simple.len() as nat)
    }

    /// The text form of the selector.
    pub fn describe(&self) -> (text: String)
        ensures
            text@ == self.text(),
    {
        let mut simple_selector = String::new();

        let mut i: usize = 0;
        while i < self.simple.len()
            invariant
                i <= self.simple.len(),
                simple_selector@ == joined(self.parts(), ", "@, i as nat),
            decreases self.simple.len() - i,
        {
            push_joined(&mut simple_selector, ", ", self.simple[i].describe().as_str());
            i += 1;
        }
        simple_selector
    }
}

impl Rule {
    /// The text forms of the selectors.
    pub open spec fn parts(&self) -> Seq<Seq<char>> {
        Seq::new(self.selectors.len() as nat, |i: int| self.selectors[i].text())
    }

    /// The first `count` declarations, each on a line of its own after five
    /// spaces.
    pub open spec fn declarations_text(&self, count: nat) -> Seq<char>
        decreases count,
    {
        if count == 0 || count > self.declarations.len() {
            Seq::empty()
        } else {
            self.declarations_text((count - 1) as nat) + "     "@ + self.declarations[count
                - 1].text() + seq!['\n']
        }
    }

    /// The selectors with a comma and a space between them, and the
    /// declarations between braces.
    pub open spec fn text(&self) -> Seq<char> {
        joined(self.parts(), ", "@, self.selectors.len() as nat) + " {\n"@
            + self.declarations_text(self.declarations.len() as nat) + "}"@
    }

    /// The text form of the rule.
    pub fn describe(&self) -> (text: String)
        ensures
            text@ == self.text(),
    {
        let mut selectors = String::new();
        let mut declarations = String::new();
        let tab = "     ";

        let mut i: usize = 0;
        while i < self.selectors.len()
            invariant
                i <= self.selectors.len(),
                selectors@ == joined(self.parts(), ", "@, i as nat),
            decreases self.selectors.len() - i,
        {
            push_joined(&mut selectors, ", ", self.selectors[i].describe().as_str());
            i += 1;
        }

        let mut d: usize = 0;
        while d < self.declarations.len()
            invariant
                d <= self.declarations.len(),
                tab@ == "     "@,
                declarations@ == self.declarations_text(d as nat),
            decreases self.declarations.len() - d,
        {
            declarations.append(tab);
            declarations.append(self.declarations[d].describe().as_str());
            declarations.push('\n');
            d += 1;
            assert(declarations@ =~= self.declarations_text(d as nat));
        }

        let mut text = selectors;
        text.append(" {\n");
        text.append(declarations.as_str());
        text.append("}");
        text
    }
}

impl StyleSheet {
    /// The text forms of the rules.
    pub open spec fn parts(&self) -> Seq<Seq<char>> {
        Seq::new(self.rules.len() as nat, |i: int| self.rules[i].text())
    }

    /// The rules with an empty line between them.
    pub open spec fn text(&self) -> Seq<char> {
        joined(self.parts(), "\n\n"@, self.rules.len() as nat)
    }

    /// The text form of the stylesheet.
    pub fn describe(&self) -> (text: String)
        ensures
            text@ == self.text(),
    {
        let mut rules = String::new();

        let mut i: usize = 0;
        while i < self.rules.len()
            invariant
                i <= self.rules.len(),
                rules@ == joined(self.parts(), "\n\n"@, i as nat),
            decreases self.rules.len() - i,
        {
            push_joined(&mut rules, "\n\n", self.rules[i].describe().as_str());
            i += 1;
        }
        rules
    }
}

} // verus!
