//! Style resolution: which declarations of a stylesheet apply to each element
//! of a document, and the styled tree that results.

use vstd::prelude::*;
use vstd::string::StringExecFns;
use crate::css::{Declarations, Rule, Selector, SimpleSelector, StyleSheet, Value};
use crate::dom::{texts, ElementData, Node, NodeTree, NodeType};
use crate::string_map::StringMap;
use crate::text::{joined, push_joined, quote, quoted};

verus! {

/// The resolved properties of one element, by property name.
pub type PropertyMap = StringMap<Value>;

/// How an element takes part in layout.
#[derive(Debug, PartialEq, Eq, Structural)]
pub enum Display {
    Block,
    Inline,
    InlineBlock,
    /// `display: none`: the element and all below it are left out of layout.
    Hidden,
}

/// An element of the document together with the properties that the
/// stylesheet gives it, and the styled nodes of its element children.
#[derive(Debug)]
pub struct StyledNode<'a> {
    pub node: &'a Node,
    pub styles: PropertyMap,
    pub children: Vec<StyledNode<'a>>,
}

/// What a styled tree says: the node that it styles, the properties of that
/// node and, in document order, the styled trees of its element children.
pub struct StyleTree {
    pub node: NodeTree,
    pub styles: Map<Seq<char>, Value>,
    pub children: Seq<StyleTree>,
}

/// A simple selector matches an element when its tag name, if it has one, is
/// the element's, its id, if it has one, is the element's id, and each of its
/// classes is a class of the element.
pub open spec fn matches_simple(element: &ElementData, simple: &SimpleSelector) -> bool {
    &&& simple.tag_name matches Some(tag) ==> tag@ == element.tag_name@
    &&& simple.id matches Some(id) ==> element.id() == Some(id@)
    &&& forall|k: int|
        0 <= k < simple.classes.len() ==> element.classes().contains(
            #[trigger] simple.classes[k]@,
        )
}

/// A selector matches an element when one of its simple selectors does. The
/// combinators between them play no part.
pub open spec fn matches_selector(element: &ElementData, selector: &Selector) -> bool {
    exists|i: int|
        0 <= i < selector.simple.len() && matches_simple(element, #[trigger] &selector.simple[i])
}

/// A rule applies to an element when one of its selectors matches it.
pub open spec fn rule_applies(element: &ElementData, rule: &Rule) -> bool {
    exists|i: int|
        0 <= i < rule.selectors.len() && matches_selector(element, #[trigger] &rule.selectors[i])
}

/// `styles` after the first `count` of `declarations` were written into it in
/// order, each over any earlier value of its property.
pub open spec fn declare(
    styles: Map<Seq<char>, Value>,
    declarations: Seq<Declarations>,
    count: nat,
) -> Map<Seq<char>, Value>
    decreases count,
{
    if count == 0 || count > declarations.len() {
        styles
    } else {
        declare(styles, declarations, (count - 1) as nat).insert(
            declarations[count - 1].property@,
            declarations[count - 1].value,
        )
    }
}

/// The properties that the first `count` of `rules` give to `element`: the
/// declarations of every rule that applies, written in stylesheet order.
pub open spec fn cascade(element: &ElementData, rules: Seq<Rule>, count: nat) -> Map<
    Seq<char>,
    Value,
>
    decreases count,
{
    if count == 0 || count > rules.len() {
        Map::empty()
    } else {
        let earlier = cascade(element, rules, (count - 1) as nat);
        let rule = &rules[count - 1];
        if rule_applies(element, rule) {
            declare(earlier, rule.declarations@, rule.declarations@.len())
        } else {
            earlier
        }
    }
}

/// The properties of a node: those that the stylesheet gives it if it is an
/// element, none otherwise.
pub open spec fn styles_of(node: &Node, sheet: &StyleSheet) -> Map<Seq<char>, Value> {
    match node.node_type {
        NodeType::Element(element) => cascade(&element, sheet.rules@, sheet.rules@.len()),
        _ => Map::empty(),
    }
}

/// The styled tree of `node`.
pub open spec fn resolve(node: &Node, sheet: &StyleSheet) -> StyleTree
    decreases node, node.children.len() + 1,
{
    StyleTree {
        node: node.tree(),
        styles: styles_of(node, sheet),
        children: resolve_children(node, sheet, node.children.len() as nat),
    }
}

/// The styled trees of the elements among the first `count` children of
/// `node`, in document order. Text and comments have none.
pub open spec fn resolve_children(node: &Node, sheet: &StyleSheet, count: nat) -> Seq<StyleTree>
    decreases node, count,
{
    if count == 0 || count > node.children.len() {
        Seq::empty()
    } else {
        let earlier = resolve_children(node, sheet, (count - 1) as nat);
        let child = &node.children[count - 1];
        if child.node_type is Element {
            earlier.push(resolve(child, sheet))
        } else {
            earlier
        }
    }
}

/// The display that a set of properties asks for: what the keyword of
/// `display` names, and `Inline` where there is none or it is unknown.
pub open spec fn display_of(styles: Map<Seq<char>, Value>) -> Display {
    if styles.contains_key("display"@) {
        match styles["display"@] {
            Value::Other(keyword) => if keyword@ == "block"@ {
                Display::Block
            } else if keyword@ == "none"@ {
                Display::Hidden
            } else if keyword@ == "inline-block"@ {
                Display::InlineBlock
            } else {
                Display::Inline
            },
            _ => Display::Inline,
        }
    } else {
        Display::Inline
    }
}

/// The magnitude of the length held under `name`, whatever its unit, or
/// `default` where `name` holds no length.
pub open spec fn length_or(styles: Map<Seq<char>, Value>, name: Seq<char>, default: i64) -> i64 {
    if styles.contains_key(name) {
        match styles[name] {
            Value::Length(magnitude, _) => magnitude,
            _ => default,
        }
    } else {
        default
    }
}

/// Whether `strings` holds `wanted`.
fn contains_text(strings: &Vec<String>, wanted: &String) -> (found: bool)
    ensures
        found == texts(strings@).contains(wanted@),
{
    let mut i: usize = 0;
    while i < strings.len()
        invariant
            i <= strings.len(),
            forall|j: int| 0 <= j < i ==> texts(strings@)[j] != wanted@,
        decreases strings.len() - i,
    {
        if strings[i] == *wanted {
            assert(texts(strings@)[i as int] == wanted@);
            return true;
        }
        i += 1;
    }
    false
}

/// Whether `simple` matches `element`.
fn simple_selector_matches(element: &ElementData, simple: &SimpleSelector) -> (matched: bool)
    ensures
        matched == matches_simple(element, simple),
{
    match &simple.tag_name {
        Some(tag) => {
            if *tag != element.tag_name {
                return false;
            }
        },
        None => {},
    }
    match &simple.id {
        Some(selector_id) => {
            match element.get_id() {
                Some(element_id) => {
                    if *element_id != *selector_id {
                        return false;
                    }
                },
                None => {
                    return false;
                },
            }
        },
        None => {},
    }
    let element_classes = element.get_classes();
    let mut k: usize = 0;
    while k < simple.classes.len()
        invariant
            k <= simple.classes.len(),
            texts(element_classes@) == element.classes(),
            forall|j: int|
                0 <= j < k ==> element.classes().contains(#[trigger] simple.classes[j]@),
        decreases simple.classes.len() - k,
    {
        if !contains_text(&element_classes, &simple.classes[k]) {
            return false;
        }
        k += 1;
    }
    true
}

/// Whether `selector` matches `element`.
pub fn selector_matches(element: &ElementData, selector: &Selector) -> (matched: bool)
    ensures
        matched == matches_selector(element, selector),
{
    let mut i: usize = 0;
    while i < selector.simple.len()
        invariant
            i <= selector.simple.len(),
            forall|j: int| 0 <= j < i ==> !matches_simple(element, #[trigger] &selector.simple[j]),
        decreases selector.simple.len() - i,
    {
        if simple_selector_matches(element, &selector.simple[i]) {
            return true;
        }
        i += 1;
    }
    false
}

/// Whether one of the selectors of `rule` matches `element`.
fn rule_matches(element: &ElementData, rule: &Rule) -> (applies: bool)
    ensures
        applies == rule_applies(element, rule),
{
    let mut i: usize = 0;
    while i < rule.selectors.len()
        invariant
            i <= rule.selectors.len(),
            forall|j: int| 0 <= j < i ==> !matches_selector(element, #[trigger] &rule.selectors[j]),
        decreases rule.selectors.len() - i,
    {
        if selector_matches(element, &rule.selectors[i]) {
            return true;
        }
        i += 1;
    }
    false
}

impl<'a> View for StyledNode<'a> {
    type V = StyleTree;

    open spec fn view(&self) -> StyleTree {
        self.tree()
    }
}

impl<'a> StyledNode<'a> {
    /// What this styled tree says.
    pub open spec fn tree(&self) -> StyleTree
        decreases self,
    {
        StyleTree {
            node: self.node.tree(),
            styles: self.styles@,
            children: Seq::new(
                self.children.len() as nat,
                |i: int|
                    if 0 <= i < self.children.len() {
                        self.children[i].tree()
                    } else {
                        arbitrary()
                    },
            ),
        }
    }

    /// Resolves `node` and the elements below it against `stylesheet`.
    pub fn new(node: &'a Node, stylesheet: &StyleSheet) -> (styled: StyledNode<'a>)
        ensures
            styled.node == node,
            styled@ == resolve(node, stylesheet),
        decreases node,
    {
        let mut style_children: Vec<StyledNode<'a>> = Vec::new();
        let ghost mut trees: Seq<StyleTree> = Seq::empty();
        let mut i: usize = 0;
        while i < node.children.len()
            invariant
                i <= node.children.len(),
                trees == resolve_children(node, stylesheet, i as nat),
                trees.len() == style_children.len(),
                forall|j: int| 0 <= j < trees.len() ==> (#[trigger] style_children[j])@ == trees[j],
            decreases node.children.len() - i,
        {
            let child = &node.children[i];
            match child.node_type {
                NodeType::Element(_) => {
                    let styled_child = StyledNode::new(child, stylesheet);
                    proof {
                        trees = trees.push(styled_child@);
                    }
                    style_children.push(styled_child);
                },
                _ => {},
            }
            i += 1;
        }
        let styles = match &node.node_type {
            NodeType::Element(element) => StyledNode::get_styles(element, stylesheet),
            _ => PropertyMap::new(),
        };
        let styled = StyledNode { node, styles, children: style_children };
        assert(styled@.children =~= trees);
        styled
    }

    /// The properties that `stylesheet` gives to `element`.
    pub fn get_styles(element: &ElementData, stylesheet: &StyleSheet) -> (styles: PropertyMap)
        ensures
            styles@ == cascade(element, stylesheet.rules@, stylesheet.rules@.len()),
    {
        let mut styles = PropertyMap::new();
        let mut r: usize = 0;
        while r < stylesheet.rules.len()
            invariant
                r <= stylesheet.rules.len(),
                styles@ == cascade(element, stylesheet.rules@, r as nat),
            decreases stylesheet.rules.len() - r,
        {
            let rule = &stylesheet.rules[r];
            if rule_matches(element, rule) {
                let mut d: usize = 0;
                while d < rule.declarations.len()
                    invariant
                        d <= rule.declarations.len(),
                        styles@ == declare(
                            cascade(element, stylesheet.rules@, r as nat),
                            rule.declarations@,
                            d as nat,
                        ),
                    decreases rule.declarations.len() - d,
                {
                    let declaration = &rule.declarations[d];
                    styles.insert(declaration.property.clone(), declaration.value.clone());
                    d += 1;
                }
            }
            r += 1;
        }
        styles
    }

    /// The value that the node has for the property `name`.
    pub fn value(&self, name: &str) -> (value: Option<&Value>)
        ensures
            match value {
                Some(v) => self@.styles.contains_key(name@) && *v == self@.styles[name@],
                None => !self@.styles.contains_key(name@),
            },
    {
        self.styles.get(name)
    }

    /// How the node takes part in layout.
    pub fn get_display(&self) -> (display: Display)
        ensures
            display == display_of(self@.styles),
    {
        match self.value("display") {
            Some(value) => match value {
                Value::Other(keyword) => {
                    if *keyword == "block".to_owned() {
                        Display::Block
                    } else if *keyword == "none".to_owned() {
                        Display::Hidden
                    } else if *keyword == "inline-block".to_owned() {
                        Display::InlineBlock
                    } else {
                        Display::Inline
                    }
                },
                _ => Display::Inline,
            },
            None => Display::Inline,
        }
    }

    /// The magnitude of the length that the node has for `name`, or `default`.
    pub fn num_or(&self, name: &str, default: i64) -> (number: i64)
        ensures
            number == length_or(self@.styles, name@, default),
    {
        match self.value(name) {
            Some(value) => match value {
                Value::Length(magnitude, _) => *magnitude,
                _ => default,
            },
            None => default,
        }
    }
}

/// Whether no node of `tree` has any property.
pub open spec fn unstyled(tree: StyleTree) -> bool
    decreases tree,
{
    &&& tree.styles == Map::<Seq<char>, Value>::empty()
    &&& forall|i: int| 0 <= i < tree.children.len() ==> unstyled(#[trigger] tree.children[i])
}

proof fn lemma_unstyled_children(node: &Node, sheet: &StyleSheet, count: nat)
    requires
        sheet.rules@.len() == 0,
        count <= node.children.len(),
    ensures
        forall|i: int|
            0 <= i < resolve_children(node, sheet, count).len() ==> unstyled(
                #[trigger] resolve_children(node, sheet, count)[i],
            ),
    decreases node, count,
{
    if count > 0 {
        lemma_unstyled_children(node, sheet, (count - 1) as nat);
        let earlier = resolve_children(node, sheet, (count - 1) as nat);
        let child = &node.children[count - 1];
        if child.node_type is Element {
            lemma_empty_stylesheet_gives_no_styles(child, sheet);
        }
        assert forall|i: int| 0 <= i < resolve_children(node, sheet, count).len() implies unstyled(
            #[trigger] resolve_children(node, sheet, count)[i],
        ) by {
            if i < earlier.len() {
                assert(resolve_children(node, sheet, count)[i] == earlier[i]);
            }
        }
    }
}

/// Against a stylesheet without rules, no node of the styled tree of any
/// document has any property.
pub proof fn lemma_empty_stylesheet_gives_no_styles(node: &Node, sheet: &StyleSheet)
    requires
        sheet.rules@.len() == 0,
    ensures
        unstyled(resolve(node, sheet)),
    decreases node, node.children.len() + 1,
{
    lemma_unstyled_children(node, sheet, node.children.len() as nat);
    let tree = resolve(node, sheet);
    assert(tree.styles =~= Map::<Seq<char>, Value>::empty()) by {
        match node.node_type {
            NodeType::Element(element) => {
                assert(cascade(&element, sheet.rules@, 0) =~= Map::<Seq<char>, Value>::empty());
            },
            _ => {},
        }
    }
    assert(tree.children == resolve_children(node, sheet, node.children.len() as nat));
    assert forall|i: int| 0 <= i < tree.children.len() implies unstyled(
        #[trigger] tree.children[i],
    ) by {}
}

/// Resolving is repeatable: two styled trees that were resolved from the same
/// document against the same stylesheet say the same, node for node: the same
/// properties, and the same children in the same order.
pub proof fn lemma_resolving_twice_gives_the_same(
    first: &StyledNode,
    second: &StyledNode,
    node: &Node,
    sheet: &StyleSheet,
)
    requires
        first@ == resolve(node, sheet),
        second@ == resolve(node, sheet),
    ensures
        first@ == second@,
        first@.styles == second@.styles,
        first@.children == second@.children,
{
}

/// Declarations of other properties leave the value of `property` as it was.
proof fn lemma_declare_keeps(
    styles: Map<Seq<char>, Value>,
    declarations: Seq<Declarations>,
    count: nat,
    property: Seq<char>,
)
    requires
        count <= declarations.len(),
        forall|e: int| 0 <= e < count ==> (#[trigger] declarations[e]).property@ != property,
    ensures
        declare(styles, declarations, count).contains_key(property) == styles.contains_key(
            property,
        ),
        declare(styles, declarations, count)[property] == styles[property],
    decreases count,
{
    if count > 0 {
        lemma_declare_keeps(styles, declarations, (count - 1) as nat, property);
    }
}

/// The last declaration of a property among the first `count` gives the
/// property its value.
proof fn lemma_declare_last(
    styles: Map<Seq<char>, Value>,
    declarations: Seq<Declarations>,
    count: nat,
    last: int,
)
    requires
        0 <= last < count <= declarations.len(),
        forall|e: int|
            last < e < count ==> (#[trigger] declarations[e]).property@
                != declarations[last].property@,
    ensures
        declare(styles, declarations, count).contains_key(declarations[last].property@),
        declare(styles, declarations, count)[declarations[last].property@]
            == declarations[last].value,
    decreases count,
{
    if last < count - 1 {
        lemma_declare_last(styles, declarations, (count - 1) as nat, last);
    }
}

/// Rules that do not apply, or that do not declare `property`, leave its
/// value as the rules before them gave it.
proof fn lemma_cascade_keeps(
    element: &ElementData,
    rules: Seq<Rule>,
    from: nat,
    count: nat,
    property: Seq<char>,
)
    requires
        from <= count <= rules.len(),
        forall|q: int, e: int|
            from <= q < count && rule_applies(element, &rules[q]) && 0 <= e
                < rules[q].declarations.len() ==> (#[trigger] rules[q].declarations[e]).property@
                != property,
    ensures
        cascade(element, rules, count).contains_key(property) == cascade(
            element,
            rules,
            from,
        ).contains_key(property),
        cascade(element, rules, count)[property] == cascade(element, rules, from)[property],
    decreases count,
{
    if from < count {
        lemma_cascade_keeps(element, rules, from, (count - 1) as nat, property);
        let rule = &rules[count - 1];
        if rule_applies(element, rule) {
            lemma_declare_keeps(
                cascade(element, rules, (count - 1) as nat),
                rule.declarations@,
                rule.declarations@.len(),
                property,
            );
        }
    }
}

/// The last rule wins: where a rule applies to an element and declares a
/// property, and no later declaration of that rule and no later rule that
/// applies declares it again, the element has the value of that declaration,
/// whatever the selectors of the earlier rules were.
pub proof fn lemma_last_matching_rule_wins(
    element: &ElementData,
    sheet: &StyleSheet,
    rule: int,
    declaration: int,
)
    requires
        0 <= rule < sheet.rules.len(),
        rule_applies(element, &sheet.rules[rule]),
        0 <= declaration < sheet.rules[rule].declarations.len(),
        forall|e: int|
            declaration < e < sheet.rules[rule].declarations.len() ==> (
            #[trigger] sheet.rules[rule].declarations[e]).property@
                != sheet.rules[rule].declarations[declaration].property@,
        forall|q: int, e: int|
            rule < q < sheet.rules.len() && rule_applies(element, &sheet.rules[q]) && 0 <= e
                < sheet.rules[q].declarations.len() ==> (
            #[trigger] sheet.rules[q].declarations[e]).property@
                != sheet.rules[rule].declarations[declaration].property@,
    ensures
        cascade(element, sheet.rules@, sheet.rules@.len()).contains_key(
            sheet.rules[rule].declarations[declaration].property@,
        ),
        cascade(
            element,
            sheet.rules@,
            sheet.rules@.len(),
        )[sheet.rules[rule].declarations[declaration].property@]
            == sheet.rules[rule].declarations[declaration].value,
{
    let rules = sheet.rules@;
    let won = &rules[rule];
    let property = won.declarations[declaration].property@;
    lemma_declare_last(
        cascade(element, rules, rule as nat),
        won.declarations@,
        won.declarations@.len(),
        declaration,
    );
    assert(cascade(element, rules, (rule + 1) as nat) == declare(
        cascade(element, rules, rule as nat),
        won.declarations@,
        won.declarations@.len(),
    ));
    lemma_cascade_keeps(element, rules, (rule + 1) as nat, rules.len(), property);
}

impl<'a> StyledNode<'a> {
    /// The text forms of the properties: each name between quotes, a colon,
    /// and the value.
    pub open spec fn parts(&self) -> Seq<Seq<char>> {
        Seq::new(
            self.styles.names().len(),
            |i: int|
                quoted(self.styles.names()[i]) + ": "@
                    + self.styles@[self.styles.names()[i]].text(),
        )
    }

    /// The node, a colon, and the properties between braces with a comma and
    /// a space between them.
    pub open spec fn text(&self) -> Seq<char> {
        self.node.node_type.text() + ": "@ + seq!['{'] + joined(
            self.parts(),
            ", "@,
            self.styles.names().len(),
        ) + seq!['}']
    }

    /// The text form of the styled node, without its children.
    pub fn describe(&self) -> (text: String)
        ensures
            text@ == self.text(),
    {
        let mut styles = String::new();
        let count = self.styles.len();
        let mut i: usize = 0;
        while i < count
            invariant
                i <= count,
                count == self.styles.names().len(),
                styles@ == joined(self.parts(), ", "@, i as nat),
            decreases count - i,
        {
            let mut entry = quote(self.styles.name_at(i).as_str());
            entry.append(": ");
            entry.append(self.styles.value_at(i).describe().as_str());
            push_joined(&mut styles, ", ", entry.as_str());
            i += 1;
        }
        let mut text = self.node.describe();
        text.append(": ");
        text.push('{');
        text.append(styles.as_str());
        text.push('}');
        text
    }
}

} // verus!
