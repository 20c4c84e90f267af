//! A lenient reader of markup: it turns text into the nodes of a document and
//! never refuses its input. What it makes of every text is stated in
//! `markup`.

use vstd::prelude::*;
use vstd::string::StringExecFns;
use crate::dom::{
    attribute_texts, texts, trees, AttributeMap, ElementData, Node, NodeKind, NodeTree, NodeType,
};
use crate::markup::{
    at, attribute_value_from, attributes_from, attributes_onto, comment_after,
    comment_body, comment_from, comment_step, control, excluded_name, followed, in_class,
    is_white_space, leaf, lemma_attribute_bounds, lemma_comment_bounds,
    lemma_comment_step_bounds, lemma_followed_after, lemma_nodes_at_end, lemma_nodes_closing,
    lemma_nodes_comment, lemma_nodes_element, lemma_nodes_text, lemma_scan_advances,
    lemma_scan_bounds, lemma_scan_stops, nodes_from, paired, peek_at, scan, step, text_from,
    valid_attribute_name, valid_attribute_value, valid_tag_name, CharClass, CommentStep, Parsed,
};
use crate::text::chars_of;

verus! {

pub fn is_whitespace(c: char) -> (r: bool)
    ensures
        r == is_white_space(c),
{
    ('\u{0009}' <= c && c <= '\u{000D}') || c == ' ' || c == '\u{0085}' || c == '\u{00A0}' || c
        == '\u{1680}' || ('\u{2000}' <= c && c <= '\u{200A}') || c == '\u{2028}' || c
        == '\u{2029}' || c == '\u{202F}' || c == '\u{205F}' || c == '\u{3000}'
}

pub fn is_valid_tag_name(c: char) -> (r: bool)
    ensures
        r == valid_tag_name(c),
{
    ('0' <= c && c <= '9') || ('a' <= c && c <= 'z') || ('A' <= c && c <= 'Z')
}

pub fn is_control(c: char) -> (r: bool)
    ensures
        r == control(c),
{
    c == '\u{007F}' || c <= '\u{001F}' || ('\u{0080}' <= c && c <= '\u{009F}')
}

pub fn is_excluded_name(c: char) -> (r: bool)
    ensures
        r == excluded_name(c),
{
    c == ' ' || c == '"' || c == '\'' || c == '>' || c == '/' || c == '='
}

pub fn is_valid_attribute_name(c: char) -> (r: bool)
    ensures
        r == valid_attribute_name(c),
{
    !is_excluded_name(c) && !is_control(c)
}

pub fn is_valid_attribute_value(c: char) -> (r: bool)
    ensures
        r == valid_attribute_value(c),
{
    !(c == ' ' || c == '"' || c == '\'' || c == '=' || c == '<' || c == '>' || c == '`')
}

/// Whether `c` is of the kind `class`.
pub fn is_in_class(class: CharClass, c: char) -> (r: bool)
    ensures
        r == in_class(class, c),
{
    match class {
        CharClass::Whitespace => is_whitespace(c),
        CharClass::TagName => is_valid_tag_name(c),
        CharClass::AttributeName => is_valid_attribute_name(c),
        CharClass::AttributeValue => is_valid_attribute_value(c),
        CharClass::Word => !is_whitespace(c) && c != '<',
        CharClass::Comment => c != '<' && c != '-',
        CharClass::ValueTail => !is_whitespace(c) && c != '>',
        CharClass::Except(other) => c != other,
    }
}

/// The characters of a text and how many of them have been read.
#[derive(Debug)]
pub struct Cursor {
    chars: Vec<char>,
    position: usize,
}

impl Cursor {
    #[verifier::type_invariant]
    closed spec fn within_text(self) -> bool {
        self.position <= self.chars.len()
    }

    /// The text.
    pub closed spec fn input(&self) -> Seq<char> {
        self.chars@
    }

    /// How many characters have been read.
    pub closed spec fn position(&self) -> int {
        self.position as int
    }

    /// A cursor at the start of `text`.
    pub fn new(text: &str) -> (cursor: Cursor)
        ensures
            cursor.input() == text@,
            cursor.position() == 0,
    {
        Cursor { chars: chars_of(text), position: 0 }
    }

    /// How many characters have been read.
    pub fn offset(&self) -> (offset: usize)
        ensures
            offset == self.position(),
            offset <= self.input().len(),
    {
        proof {
            use_type_invariant(self);
        }
        self.position
    }

    /// The next character, which stays unread.
    pub fn peek(&self) -> (next: Option<char>)
        ensures
            next == peek_at(self.input(), self.position()),
            0 <= self.position() <= self.input().len(),
    {
        proof {
            use_type_invariant(self);
        }
        if self.position < self.chars.len() {
            Some(self.chars[self.position])
        } else {
            None
        }
    }

    /// Whether the next character is `c`.
    pub fn peek_is(&self, c: char) -> (r: bool)
        ensures
            r == at(self.input(), self.position(), c),
            0 <= self.position() <= self.input().len(),
    {
        match self.peek() {
            Some(next) => next == c,
            None => false,
        }
    }

    /// Reads the next character.
    pub fn next(&mut self) -> (next: Option<char>)
        ensures
            next == peek_at(old(self).input(), old(self).position()),
            final(self).position() == step(old(self).input(), old(self).position()),
            final(self).input() == old(self).input(),
            0 <= old(self).position() <= final(self).position() <= final(self).input().len(),
    {
        proof {
            use_type_invariant(&*self);
        }
        if self.position < self.chars.len() {
            let c = self.chars[self.position];
            self.position = self.position + 1;
            Some(c)
        } else {
            None
        }
    }

    /// Reads the characters of the kind `class` up to the first of another
    /// kind.
    pub fn consume_while(&mut self, class: CharClass) -> (result: String)
        ensures
            final(self).position() == scan(old(self).input(), old(self).position(), class),
            0 <= old(self).position() <= final(self).position() <= final(self).input().len(),
            result@ == old(self).input().subrange(old(self).position(), final(self).position()),
            final(self).input() == old(self).input(),
    {
        proof {
            use_type_invariant(&*self);
        }
        let mut result = String::new();
        let ghost start = self.position();
        while self.position < self.chars.len() && is_in_class(class, self.chars[self.position])
            invariant
                0 <= start <= self.position() <= self.chars.len(),
                self.input() == old(self).input(),
                start == old(self).position(),
                scan(self.input(), start, class) == scan(self.input(), self.position(), class),
                result@ == self.input().subrange(start, self.position()),
            decreases self.chars.len() - self.position,
        {
            let c = self.chars[self.position];
            result.push(c);
            self.position = self.position + 1;
            assert(self.input().subrange(start, self.position()) =~= self.input().subrange(
                start,
                self.position() - 1,
            ).push(c));
        }
        result
    }
}

/// A parser over the characters of a text. It reads from its position on and
/// keeps the names of the closing tags that it has met.
#[derive(Debug)]
pub struct HtmlParser {
    cursor: Cursor,
    node_queue: Vec<String>,
}

impl HtmlParser {
    /// The text that is parsed.
    pub closed spec fn input(&self) -> Seq<char> {
        self.cursor.input()
    }

    /// How many characters have been read.
    pub closed spec fn position(&self) -> int {
        self.cursor.position()
    }

    /// The names of the closing tags that were met and not yet paired with an
    /// element.
    pub closed spec fn queue(&self) -> Seq<Seq<char>> {
        texts(self.node_queue@)
    }

    /// A parser at the start of `full_html`.
    pub fn new(full_html: &str) -> (parser: HtmlParser)
        ensures
            parser.input() == full_html@,
            parser.position() == 0,
            parser.queue() == Seq::<Seq<char>>::empty(),
    {
        let parser = HtmlParser { cursor: Cursor::new(full_html), node_queue: Vec::new() };
        assert(parser.queue() =~= Seq::<Seq<char>>::empty());
        parser
    }

    /// Reads text up to the next `<`.
    fn parse_text(&mut self) -> (node: Node)
        ensures
            node.node_type matches NodeType::Text(text) && text@ == text_from(
                old(self).input(),
                old(self).position(),
            ).0,
            node.children@.len() == 0,
            final(self).position() == text_from(old(self).input(), old(self).position()).1,
            0 <= old(self).position() <= final(self).position() <= final(self).input().len(),
            final(self).input() == old(self).input(),
            final(self).queue() == old(self).queue(),
    {
        let mut text_content = String::new();
        let ghost input = self.input();
        let started_at = self.cursor.offset();
        let ghost start = started_at as int;
        loop
            invariant_except_break
                self.input() == input,
                self.queue() == old(self).queue(),
                0 <= start <= self.position() <= input.len(),
                text_from(input, start).0 == text_content@ + text_from(input, self.position()).0,
                text_from(input, start).1 == text_from(input, self.position()).1,
            ensures
                self.input() == input,
                self.queue() == old(self).queue(),
                0 <= start <= self.position() <= input.len(),
                text_from(input, start) == (text_content@, self.position()),
            decreases input.len() - self.position(),
        {
            match self.cursor.peek() {
                Some(c) => {
                    if c == '<' {
                        assert(text_content@ + Seq::<char>::empty() =~= text_content@);
                        break ;
                    }
                },
                None => {
                    assert(text_content@ + Seq::<char>::empty() =~= text_content@);
                    break ;
                },
            }
            let ghost before = self.position();
            let ghost so_far = text_content@;
            let whitespace = self.cursor.consume_while(CharClass::Whitespace);
            if !whitespace.as_str().is_empty() {
                text_content.push(' ');
            }
            let text_part = self.cursor.consume_while(CharClass::Word);
            text_content.append(text_part.as_str());
            proof {
                lemma_scan_bounds(input, before, CharClass::Whitespace);
                if is_white_space(input[before]) {
                    lemma_scan_advances(input, before, CharClass::Whitespace);
                } else {
                    lemma_scan_advances(input, before, CharClass::Word);
                }
                let rest = text_from(input, self.position()).0;
                let space = if scan(input, before, CharClass::Whitespace) > before {
                    seq![' ']
                } else {
                    Seq::<char>::empty()
                };
                assert(text_content@ == so_far + space + text_part@);
                assert(text_content@ + rest =~= so_far + ((space + text_part@) + rest));
            }
        }
        Node::new(NodeType::Text(text_content), Vec::new())
    }

    /// Reads the value of an attribute, after its `=` sign.
    fn parse_attribute_values(&mut self) -> (value: String)
        ensures
            value@ == attribute_value_from(old(self).input(), old(self).position()).0,
            final(self).position() == attribute_value_from(
                old(self).input(),
                old(self).position(),
            ).1,
            0 <= old(self).position() <= final(self).position() <= final(self).input().len(),
            final(self).input() == old(self).input(),
            final(self).queue() == old(self).queue(),
    {
        self.cursor.consume_while(CharClass::Whitespace);

        let string = match self.cursor.next() {
            Some(c) => {
                if c == '"' || c == '\'' {
                    self.cursor.next();
                    let parsed_value = self.cursor.consume_while(CharClass::Except(c));
                    self.cursor.next();

                    parsed_value
                } else {
                    self.cursor.consume_while(CharClass::AttributeValue)
                }
            },
            None => self.cursor.consume_while(CharClass::AttributeValue),
        };

        string
    }

    /// Reads the attributes of a tag and the `>` that closes it.
    fn parse_attributes(&mut self) -> (attributes: AttributeMap)
        ensures
            attribute_texts(attributes@) == attributes_from(
                old(self).input(),
                old(self).position(),
            ).0,
            final(self).position() == attributes_from(old(self).input(), old(self).position()).1,
            0 <= old(self).position() <= final(self).position() <= final(self).input().len(),
            final(self).input() == old(self).input(),
            final(self).queue() == old(self).queue(),
    {
        let mut attributes = AttributeMap::new();
        let ghost input = self.input();
        let started_at = self.cursor.offset();
        let ghost start = started_at as int;
        assert(attribute_texts(attributes@) =~= Map::<Seq<char>, Seq<char>>::empty());
        loop
            invariant_except_break
                self.input() == input,
                self.queue() == old(self).queue(),
                0 <= start <= self.position() <= input.len(),
                attributes_onto(input, start, Map::empty()) == attributes_onto(
                    input,
                    self.position(),
                    attribute_texts(attributes@),
                ),
            ensures
                self.input() == input,
                self.queue() == old(self).queue(),
                0 <= start <= self.position() <= input.len(),
                attributes_onto(input, start, Map::empty()) == (
                    attribute_texts(attributes@),
                    self.position(),
                ),
            decreases input.len() - self.position(),
        {
            match self.cursor.peek() {
                Some(c) => {
                    if c == '>' {
                        break ;
                    }
                },
                None => {
                    break ;
                },
            }
            let before = self.cursor.offset();
            let ghost held = attributes@;
            proof {
                lemma_attribute_bounds(input, before as int);
            }
            self.cursor.consume_while(CharClass::Whitespace);
            let name = self.cursor.consume_while(CharClass::AttributeName).as_str().to_lowercase();
            self.cursor.consume_while(CharClass::Whitespace);

            let value = if self.cursor.peek_is('=') {
                self.cursor.next();
                self.cursor.consume_while(CharClass::Whitespace);
                let value_string = self.parse_attribute_values();
                self.cursor.consume_while(CharClass::ValueTail);
                self.cursor.consume_while(CharClass::Whitespace);
                value_string
            } else {
                String::new()
            };
            if self.cursor.offset() == before {
                self.cursor.next();
            }
            attributes.insert(name, value);
            proof {
                assert(attribute_texts(attributes@) =~= attribute_texts(held).insert(
                    name@,
                    value@,
                ));
            }
        }
        self.cursor.next();

        attributes
    }

    /// A comment without text.
    fn empty_comment() -> (node: Node)
        ensures
            node.node_type matches NodeType::Comment(text) && text@ == Seq::<char>::empty(),
            node.children@.len() == 0,
    {
        Node::new(NodeType::Comment(String::new()), Vec::new())
    }

    /// Reads a comment, after its `<!`.
    fn parse_comment_node(&mut self) -> (node: Node)
        ensures
            node.node_type matches NodeType::Comment(text) && text@ == comment_from(
                old(self).input(),
                old(self).position(),
            ).0,
            node.children@.len() == 0,
            final(self).position() == comment_from(old(self).input(), old(self).position()).1,
            0 <= old(self).position() <= final(self).position() <= final(self).input().len(),
            final(self).input() == old(self).input(),
            final(self).queue() == old(self).queue(),
    {
        let mut comment_content = String::new();
        let ghost input = self.input();
        let opened_at = self.cursor.offset();
        let ghost start = opened_at as int;
        proof {
            lemma_comment_bounds(input, start);
        }

        if self.cursor.peek_is('-') {
            self.cursor.next();
            if self.cursor.peek_is('-') {
                self.cursor.next();
            } else {
                self.cursor.consume_while(CharClass::Except('>'));
                return HtmlParser::empty_comment();
            }
        } else {
            self.cursor.consume_while(CharClass::Except('>'));
            return HtmlParser::empty_comment();
        }

        match self.cursor.peek() {
            Some(c) => {
                if c != '>' {
                    self.cursor.next();
                    return HtmlParser::empty_comment();
                }
            },
            None => {},
        }

        if self.cursor.peek_is('>') {
            self.cursor.next();
            match self.cursor.peek() {
                Some(c) => {
                    if c != '>' {
                        self.cursor.next();
                        return HtmlParser::empty_comment();
                    } else {
                        comment_content.push('-');
                    }
                },
                None => {
                    comment_content.push('-');
                },
            }
        }
        let ghost opening = comment_content@;
        let ghost body_start = self.position();
        assert(comment_from(input, start) == comment_after(input, body_start, opening));
        assert(opening + Seq::<char>::empty() =~= opening);

        loop
            invariant_except_break
                comment_after(input, body_start, opening) == comment_after(
                    input,
                    self.position(),
                    comment_content@,
                ),
            invariant
                self.input() == input,
                input == old(self).input(),
                start == old(self).position(),
                self.queue() == old(self).queue(),
                0 <= start <= self.position() <= input.len(),
                comment_from(input, start) == comment_after(input, body_start, opening),
            ensures
                comment_after(input, body_start, opening) == (comment_content@, self.position()),
            decreases input.len() - self.position(),
        {
            if self.cursor.peek().is_none() {
                assert(comment_content@ + Seq::<char>::empty() =~= comment_content@);
                break ;
            }
            let ghost before = self.position();
            let ghost so_far = comment_content@;
            let lead = self.cursor.consume_while(CharClass::Comment);
            comment_content.append(lead.as_str());
            let ghost stop = self.position();
            proof {
                lemma_scan_stops(input, before, CharClass::Comment);
                lemma_comment_step_bounds(input, stop);
            }
            if self.cursor.peek_is('<') {
                self.cursor.next();
                if self.cursor.peek_is('!') {
                    self.cursor.next();
                    if self.cursor.peek_is('-') {
                        self.cursor.next();
                        if self.cursor.peek_is('-') {
                            self.cursor.consume_while(CharClass::Except('>'));

                            return HtmlParser::empty_comment();
                        } else {
                            comment_content.append("<!-");
                        }
                    } else if self.cursor.peek_is(' ') {
                        self.cursor.next();
                        if self.cursor.peek_is('-') {
                            self.cursor.next();
                            if self.cursor.peek_is('-') {
                                self.cursor.next();
                                if self.cursor.peek_is('-') {
                                    self.cursor.next();
                                    if self.cursor.peek_is('>') {
                                        self.cursor.next();
                                        return HtmlParser::empty_comment();
                                    } else {
                                        comment_content.append("<! --");
                                    }
                                } else {
                                    comment_content.append("<! -");
                                }
                            } else {
                                comment_content.append("<! ");
                            }
                        }
                    } else {
                        comment_content.append("<!");
                    }
                } else {
                    comment_content.push('<');
                }
            } else if self.cursor.peek_is('-') {
                self.cursor.next();
                if self.cursor.peek_is('-') {
                    self.cursor.next();
                    if self.cursor.peek_is('>') {
                        self.cursor.next();
                        assert(comment_content@ == so_far + lead@);
                        break ;
                    } else {
                        comment_content.append("--");
                    }
                } else {
                    comment_content.push('-');
                }
            }
            proof {
                let step = comment_step(input, stop);
                assert(step matches CommentStep::More(piece, next) && next == self.position()
                    && comment_content@ =~= so_far + lead@ + piece);
                let piece = step->More_0;
                match comment_body(input, self.position()) {
                    (Some(rest), end) => {
                        assert(so_far + (lead@ + piece + rest) =~= comment_content@ + rest);
                    },
                    (None, end) => {},
                }
            }
        }

        Node::new(NodeType::Comment(comment_content), Vec::new())
    }

    /// Reads an element, after its `<`: its tag name, its attributes, and the
    /// nodes up to the next closing tag.
    fn parse_node(&mut self) -> (node: Node)
        ensures
            ({
                let input = old(self).input();
                let name_end = scan(input, old(self).position(), CharClass::TagName);
                let (attributes, after_tag) = attributes_from(input, name_end);
                let inner = nodes_from(input, after_tag, old(self).queue());
                &&& node.tree() == NodeTree {
                    kind: NodeKind::Element(
                        input.subrange(old(self).position(), name_end),
                        attributes,
                    ),
                    children: inner.nodes,
                }
                &&& final(self).position() == inner.position
                &&& final(self).queue() == inner.queue
            }),
            node.node_type is Element,
            0 <= old(self).position() <= final(self).position() <= final(self).input().len(),
            final(self).input() == old(self).input(),
        decreases old(self).input().len() - old(self).position(), 1nat,
    {
        let tag_name = self.cursor.consume_while(CharClass::TagName);
        let attributes = self.parse_attributes();

        let element = ElementData::new(tag_name, attributes);
        let children = self.parse_nodes();

        let node = Node::new(NodeType::Element(element), children);
        assert(node.tree().children =~= trees(children@));
        node
    }

    /// Parses the nodes from the position of the parser on, up to the first
    /// closing tag or the end of the text.
    pub fn parse_nodes(&mut self) -> (nodes: Vec<Node>)
        ensures
            trees(nodes@) == nodes_from(
                old(self).input(),
                old(self).position(),
                old(self).queue(),
            ).nodes,
            final(self).position() == nodes_from(
                old(self).input(),
                old(self).position(),
                old(self).queue(),
            ).position,
            final(self).queue() == nodes_from(
                old(self).input(),
                old(self).position(),
                old(self).queue(),
            ).queue,
            0 <= old(self).position() <= final(self).position() <= final(self).input().len(),
            final(self).input() == old(self).input(),
        decreases old(self).input().len() - old(self).position(), 0nat,
    {
        let mut nodes: Vec<Node> = Vec::new();
        let ghost input = self.input();
        let started_at = self.cursor.offset();
        let ghost start = started_at as int;
        let ghost queue = self.queue();
        proof {
            assert(trees(nodes@) =~= Seq::<NodeTree>::empty());
            lemma_followed_after(Seq::empty(), Seq::empty(), input, start, queue);
            assert(Seq::<NodeTree>::empty() + Seq::<NodeTree>::empty() =~= Seq::<
                NodeTree,
            >::empty());
            assert(Seq::<NodeTree>::empty() + nodes_from(input, start, queue).nodes
                =~= nodes_from(input, start, queue).nodes);
        }

        loop
            invariant_except_break
                nodes_from(input, start, queue) == followed(
                    trees(nodes@),
                    input,
                    self.position(),
                    self.queue(),
                ),
            invariant
                self.input() == input,
                input == old(self).input(),
                start == old(self).position(),
                0 <= start <= self.position() <= input.len(),
            ensures
                nodes_from(input, start, queue) == (Parsed {
                    nodes: trees(nodes@),
                    position: self.position(),
                    queue: self.queue(),
                }),
            decreases input.len() - self.position(),
        {
            if self.cursor.peek().is_none() {
                proof {
                    lemma_nodes_at_end(input, self.position(), self.queue());
                    assert(trees(nodes@) + Seq::<NodeTree>::empty() =~= trees(nodes@));
                }
                break ;
            }
            let ghost before = self.position();
            let ghost queue_before = self.queue();
            let ghost read = trees(nodes@);
            self.cursor.consume_while(CharClass::Whitespace);

            if self.cursor.peek_is('<') {
                self.cursor.next();

                if self.cursor.peek_is('/') {
                    self.cursor.next();
                    self.cursor.consume_while(CharClass::Whitespace);

                    let closing_tag_name = self.cursor.consume_while(CharClass::TagName);

                    self.cursor.consume_while(CharClass::Except('>'));
                    self.cursor.next();

                    self.node_queue.push(closing_tag_name);
                    proof {
                        lemma_nodes_closing(input, before, queue_before);
                        assert(self.queue() =~= queue_before.push(closing_tag_name@));
                        assert(read + Seq::<NodeTree>::empty() =~= read);
                    }
                    break ;
                } else if self.cursor.peek_is('!') {
                    self.cursor.next();
                    let comment = self.parse_comment_node();
                    proof {
                        lemma_nodes_comment(input, before, queue_before);
                        assert(comment.tree().children =~= Seq::<NodeTree>::empty());
                        lemma_followed_after(
                            read,
                            seq![comment.tree()],
                            input,
                            self.position(),
                            self.queue(),
                        );
                        assert(trees(nodes@.push(comment)) =~= read + seq![comment.tree()]);
                    }
                    nodes.push(comment);
                } else {
                    let node = self.parse_node();
                    let ghost tree = node.tree();
                    let ghost inner_queue = self.queue();
                    proof {
                        lemma_nodes_element(input, before, queue_before);
                    }
                    self.pair(&mut nodes, node);
                    proof {
                        let items = paired(
                            tree.kind->Element_0,
                            tree.kind->Element_1,
                            tree.children,
                            inner_queue,
                        ).0;
                        lemma_followed_after(read, items, input, self.position(), self.queue());
                    }
                }
            } else {
                let text = self.parse_text();
                proof {
                    lemma_nodes_text(input, before, queue_before);
                    assert(text.tree().children =~= Seq::<NodeTree>::empty());
                    lemma_followed_after(
                        read,
                        seq![text.tree()],
                        input,
                        self.position(),
                        self.queue(),
                    );
                    assert(trees(nodes@.push(text)) =~= read + seq![text.tree()]);
                }
                nodes.push(text);
            }
        }

        nodes
    }

    /// Pairs the element `node`, which was just read, with the closing tag
    /// at the head of the queue, and adds it to `nodes`: with its children
    /// where the tag is its own or there is none, and followed by them where
    /// the tag is another.
    fn pair(&mut self, nodes: &mut Vec<Node>, node: Node)
        requires
            node.node_type is Element,
        ensures
            ({
                let tree = node.tree();
                let (items, remaining) = paired(
                    tree.kind->Element_0,
                    tree.kind->Element_1,
                    tree.children,
                    old(self).queue(),
                );
                &&& trees(final(nodes)@) == trees(old(nodes)@) + items
                &&& final(self).queue() == remaining
            }),
            final(self).position() == old(self).position(),
            final(self).input() == old(self).input(),
    {
        let mut node = node;
        let ghost tree = node.tree();
        let ghost read = trees(nodes@);
        let ghost queue = self.queue();
        let mut keeps = true;

        match &node.node_type {
            NodeType::Element(element) => {
                if self.node_queue.len() > 0 {
                    let assumed_tag = self.node_queue.remove(0);

                    if element.tag_name != assumed_tag {
                        keeps = false;
                        self.node_queue.insert(0, assumed_tag);
                        assert(self.queue() =~= queue);
                    } else {
                        assert(self.queue() =~= queue.drop_first());
                    }
                }
            },
            _ => {},
        }
        if keeps {
            assert(trees(nodes@.push(node)) =~= read + seq![tree]);
            nodes.push(node);
        } else {
            let mut children: Vec<Node> = Vec::new();
            children.append(&mut node.children);
            proof {
                assert(node.tree().children =~= Seq::<NodeTree>::empty());
                assert(node.tree() == leaf(tree.kind));
                assert(trees(children@) =~= tree.children);
                assert(trees(nodes@.push(node) + children@) =~= read + (seq![leaf(tree.kind)]
                    + tree.children));
            }
            nodes.push(node);
            nodes.append(&mut children);
        }
    }
}

} // verus!
