//! The document tree: elements with their attributes, text and comments.

use vstd::prelude::*;
use vstd::string::StringExecFns;
use crate::string_map::StringMap;
use crate::text::chars_of;

verus! {

/// The attributes of an element, by name.
pub type AttributeMap = StringMap<String>;

/// The tag name and the attributes of an element.
#[derive(Debug)]
pub struct ElementData {
    pub tag_name: String,
    pub attributes: AttributeMap,
}

/// What a node of the document is.
#[derive(Debug)]
pub enum NodeType {
    Text(String),
    Element(ElementData),
    Comment(String),
}

/// A node of the document with its children in document order.
#[derive(Debug)]
pub struct Node {
    pub children: Vec<Node>,
    pub node_type: NodeType,
}

/// What a node of a document is, as plain text.
pub enum NodeKind {
    Text(Seq<char>),
    /// A tag name and the value of each attribute.
    Element(Seq<char>, Map<Seq<char>, Seq<char>>),
    Comment(Seq<char>),
}

/// What a document says: what each node is and which children it has.
pub struct NodeTree {
    pub kind: NodeKind,
    pub children: Seq<NodeTree>,
}

/// The characters of the value held under each name.
pub open spec fn attribute_texts(attributes: Map<Seq<char>, String>) -> Map<Seq<char>, Seq<char>> {
    attributes.map_values(|value: String| value@)
}

/// What each of `nodes` says.
pub open spec fn trees(nodes: Seq<Node>) -> Seq<NodeTree> {
    Seq::new(nodes.len(), |i: int| nodes[i].tree())
}

/// The index of the first space of `s` at or after `from`; the length of `s`
/// if there is none.
pub open spec fn next_space(s: Seq<char>, from: int) -> int
    decreases s.len() - from,
{
    if 0 <= from < s.len() && s[from] != ' ' {
        next_space(s, from + 1)
    } else {
        from
    }
}

/// The pieces into which the single spaces of `s` cut it, from `from` on.
/// Two adjacent spaces have an empty piece between them, and a string without
/// a space is one piece.
pub open spec fn split_spaces(s: Seq<char>, from: int) -> Seq<Seq<char>>
    decreases s.len() - from,
{
    let end = next_space(s, from);
    if 0 <= from <= end < s.len() {
        seq![s.subrange(from, end)] + split_spaces(s, end + 1)
    } else {
        seq![s.subrange(from, s.len() as int)]
    }
}

/// The characters of each string of `strings`.
pub open spec fn texts(strings: Seq<String>) -> Seq<Seq<char>> {
    strings.map_values(|s: String| s@)
}

/// Cuts `value` at every single space.
pub fn split_on_spaces(value: &str) -> (pieces: Vec<String>)
    ensures
        texts(pieces@) == split_spaces(value@, 0),
{
    let chars = chars_of(value);
    let n = chars.len();
    let mut pieces: Vec<String> = Vec::new();
    let mut piece = String::new();
    let ghost mut start: int = 0;
    let mut i: usize = 0;
    while i < n
        invariant
            0 <= start <= i <= n,
            n == value@.len(),
            chars@ == value@,
            piece@ == value@.subrange(start, i as int),
            next_space(value@, start) == next_space(value@, i as int),
            split_spaces(value@, 0) == texts(pieces@) + split_spaces(value@, start),
        decreases n - i,
    {
        let c = chars[i];
        if c == ' ' {
            proof {
                assert(texts(pieces@.push(piece)) =~= texts(pieces@) + seq![piece@]);
                start = i + 1;
            }
            pieces.push(piece);
            piece = String::new();
            assert(piece@ =~= value@.subrange(start, i + 1));
        } else {
            piece.push(c);
            assert(piece@ =~= value@.subrange(start, i + 1));
        }
        i += 1;
    }
    proof {
        assert(texts(pieces@.push(piece)) =~= texts(pieces@) + seq![piece@]);
    }
    pieces.push(piece);
    pieces
}

impl Node {
    /// What this node and the nodes below it say.
    pub open spec fn tree(&self) -> NodeTree
        decreases self,
    {
        NodeTree {
            kind: match self.node_type {
                NodeType::Text(text) => NodeKind::Text(text@),
                NodeType::Element(element) => NodeKind::Element(
                    element.tag_name@,
                    attribute_texts(element.attributes@),
                ),
                NodeType::Comment(text) => NodeKind::Comment(text@),
            },
            children: Seq::new(
                self.children.len() as nat,
                |i: int|
                    if 0 <= i < self.children.len() {
                        self.children[i].tree()
                    } else {
                        arbitrary()
                    },
            ),
        }
    }

    pub fn new(node_type: NodeType, children: Vec<Node>) -> (node: Node)
        ensures
            node.node_type == node_type,
            node.children == children,
    {
        Node { node_type, children }
    }
}

impl ElementData {
    pub fn new(tag_name: String, attributes: AttributeMap) -> (element: ElementData)
        ensures
            element.tag_name == tag_name,
            element.attributes == attributes,
    {
        ElementData { tag_name, attributes }
    }

    /// The value of the `id` attribute, if the element has one.
    pub open spec fn id(&self) -> Option<Seq<char>> {
        if self.attributes@.contains_key("id"@) {
            Some(self.attributes@["id"@]@)
        } else {
            None
        }
    }

    /// The class names of the element: the pieces of its `class` attribute
    /// between single spaces, and none where it has no such attribute.
    pub open spec fn classes(&self) -> Seq<Seq<char>> {
        if self.attributes@.contains_key("class"@) {
            split_spaces(self.attributes@["class"@]@, 0)
        } else {
            Seq::empty()
        }
    }

    pub fn get_id(&self) -> (id: Option<&String>)
        ensures
            match id {
                Some(value) => self.id() == Some(value@),
                None => self.id() is None,
            },
    {
        self.attributes.get("id")
    }

    pub fn get_classes(&self) -> (classes: Vec<String>)
        ensures
            texts(classes@) == self.classes(),
    {
        match self.attributes.get("class") {
            Some(value) => split_on_spaces(value.as_str()),
            None => {
                let classes: Vec<String> = Vec::new();
                assert(texts(classes@) =~= Seq::<Seq<char>>::empty());
                classes
            },
        }
    }
}

impl ElementData {
    /// The first `count` attributes, each after a space, with its value
    /// between double quotes.
    pub open spec fn attributes_text(&self, count: nat) -> Seq<char>
        decreases count,
    {
        if count == 0 || count > self.attributes.names().len() {
            Seq::empty()
        } else {
            let name = self.attributes.names()[count - 1];
            self.attributes_text((count - 1) as nat) + seq![' '] + name + "=\""@
                + self.attributes@[name]@ + seq!['"']
        }
    }

    /// The tag name, a comma, and the attributes, between angle brackets.
    pub open spec fn text(&self) -> Seq<char> {
        seq!['<'] + self.tag_name@ + seq![','] + self.attributes_text(
            self.attributes.names().len(),
        ) + seq!['>']
    }

    /// The text form of the element.
    pub fn describe(&self) -> (text: String)
        ensures
            text@ == self.text(),
    {
        let mut attribute_string = String::new();

        let count = self.attributes.len();
        let mut i: usize = 0;
        while i < count
            invariant
                i <= count,
                count == self.attributes.names().len(),
                attribute_string@ == self.attributes_text(i as nat),
            decreases count - i,
        {
            attribute_string.push(' ');
            attribute_string.append(self.attributes.name_at(i).as_str());
            attribute_string.append("=\"");
            attribute_string.append(self.attributes.value_at(i).as_str());
            attribute_string.push('"');
            i += 1;
            assert(attribute_string@ =~= self.attributes_text(i as nat));
        }
        let mut text = String::new();
        text.push('<');
        text.append(self.tag_name.as_str());
        text.push(',');
        text.append(attribute_string.as_str());
        text.push('>');
        assert(text@ =~= self.text());
        text
    }
}

impl NodeType {
    /// Text and comments as they are, an element by its tag and attributes.
    pub open spec fn text(&self) -> Seq<char> {
        match self {
            NodeType::Text(text) => text@,
            NodeType::Comment(text) => text@,
            NodeType::Element(element) => element.text(),
        }
    }

    /// The text form of the node, without its children.
    pub fn describe(&self) -> (text: String)
        ensures
            text@ == self.text(),
    {
        match self {
            NodeType::Text(text) => text.clone(),
            NodeType::Comment(text) => text.clone(),
            NodeType::Element(element) => element.describe(),
        }
    }
}

impl Node {
    /// The text form of the node, without its children.
    pub fn describe(&self) -> (text: String)
        ensures
            text@ == self.node_type.text(),
    {
        self.node_type.describe()
    }
}

} // verus!
